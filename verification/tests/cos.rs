use crypto::digest::Digest;
use crypto::hmac::Hmac;
use crypto::mac::Mac;
use crypto::sha1::Sha1;
use novel::cos::{get_object_status, sign, to_hex, CosClient};

fn client() -> CosClient {
    CosClient::new(
        "guangzhou".to_string(),
        "secret".to_string(),
        "AKID".to_string(),
        "1250000000".to_string(),
    )
}

fn hmac_hex(key: &str, data: &str) -> String {
    let mut mac = Hmac::new(Sha1::new(), key.as_bytes());
    mac.input(data.as_bytes());
    mac.result()
        .code()
        .iter()
        .map(|b| format!("{:02x}", b))
        .collect()
}

#[test]
fn hex_is_lower_case_two_digits_per_byte() {
    assert_eq!(to_hex(&[0xab, 0x01, 0xff, 0x00]), "ab01ff00");
    assert_eq!(to_hex(&[]), "");
}

#[test]
fn sign_is_hex_hmac_sha1() {
    assert_eq!(
        sign("key", "The quick brown fox jumps over the lazy dog"),
        "de7c9b85b8b78aa6bc8a7a36f70a90701c9db4d9"
    );
    assert_eq!(sign("", ""), "fbdb1d1b18aa6c08324b7d64b71fb76370690e1d");
}

#[test]
fn authorization_for_a_fixed_time() {
    let c = client();
    let auth = c.sign_at(1000, "put", "a b.epub", 3600);
    let key_time = "1000;4600";
    let sign_key = hmac_hex("secret", key_time);
    let mut sha1 = Sha1::new();
    sha1.input_str("put\n/a b.epub\n\n\n");
    let str_to_sign = format!("sha1\n{key_time}\n{}\n", sha1.result_str());
    let signature = hmac_hex(&sign_key, &str_to_sign);
    let expected = format!(
        "q-sign-algorithm=sha1&q-ak=AKID&q-sign-time={key_time}&q-key-time={key_time}&q-header-list=&q-url-param-list=&q-signature={signature}"
    );
    assert_eq!(auth, expected);
}

#[test]
fn authorization_from_the_clock() {
    let c = client();
    let auth = c.sign("get", "x", 60).unwrap();
    assert!(auth.starts_with("q-sign-algorithm=sha1&q-ak=AKID&q-sign-time="));
    let c2 = client();
    assert_eq!(c2.sign("get", "x", u64::MAX), Err("app error".to_string()));
}

#[test]
fn object_addresses() {
    let c = client();
    assert_eq!(
        c.get_object_url("novel", "a/b.epub"),
        "https://novel-1250000000.cos.ap-guangzhou.myqcloud.com/a/b.epub"
    );
    assert_eq!(
        c.put_object_url("epub/a b c.epub"),
        "https://1250000000.cos.ap-guangzhou.myqcloud.com/epub/a%20b%20c.epub"
    );
    assert_eq!(
        c.get_object_host("epub/a b.zip"),
        "https://1250000000.cos.ap-guangzhou.myqcloud.com/epub/a b.zip"
    );
}

#[test]
fn download_errors() {
    assert_eq!(get_object_status(404), Some(404));
    assert_eq!(get_object_status(500), Some(500));
    assert_eq!(get_object_status(403), None);
}

#[test]
fn signing_with_a_clock_reading() {
    let c = client();
    assert_eq!(
        c.sign_with(Some(1000), "put", "a b.epub", 3600),
        Ok(c.sign_at(1000, "put", "a b.epub", 3600))
    );
    assert_eq!(c.sign_with(None, "put", "x", 60), Err("app error".to_string()));
    assert_eq!(c.sign_with(Some(10), "put", "x", u64::MAX), Err("app error".to_string()));
}
