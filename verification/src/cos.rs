//! Tencent Cloud object storage: object addresses and request signatures.
use crate::text;
use crate::text::{push_char, replace_str, u64_to_decimal};
use crypto::digest::Digest;
use crypto::hmac::Hmac;
use crypto::mac::Mac;
use crypto::sha1::Sha1;
use vstd::prelude::*;
use vstd::string::*;

verus! {

/// HMAC-SHA1 of the UTF-8 bytes of `data` under the UTF-8 bytes of `key`.
pub uninterp spec fn hmac_sha1(key: Seq<char>, data: Seq<char>) -> Seq<u8>;

/// SHA-1 digest of the UTF-8 bytes of `data`.
pub uninterp spec fn sha1_digest(data: Seq<char>) -> Seq<u8>;

/// Trusted: rust-crypto's `Hmac::new(Sha1::new(), key)`, `Mac::input` and
/// `Mac::result().code()`. Claims that the code is the HMAC-SHA1 of the two
/// byte strings, named `hmac_sha1`, and that it is 20 bytes long (the output
/// size of `Sha1`).
#[verifier::external_body]
fn hmac_sha1_code(key: &str, data: &str) -> (code: Vec<u8>)
    ensures
        code@ == hmac_sha1(key@, data@),
        code@.len() == 20,
{
    let mut mac = Hmac::new(Sha1::new(), key.as_bytes());
    mac.input(data.as_bytes());
    mac.result().code().to_vec()
}

/// Trusted: rust-crypto's `Sha1::new`, `Digest::input_str` and
/// `Digest::result_str`. Claims that the text is the lower-case hexadecimal
/// form (rustc-serialize's `to_hex`, two digits per byte, high nibble first)
/// of the SHA-1 digest named `sha1_digest`.
#[verifier::external_body]
fn sha1_hex(data: &str) -> (hex: String)
    ensures
        hex@ == hex_lower(sha1_digest(data@)),
{
    let mut sha1 = Sha1::new();
    sha1.input_str(data);
    sha1.result_str()
}

/// Trusted: `SystemTime::now().duration_since(UNIX_EPOCH)` in whole seconds,
/// `None` when the clock reads before the epoch. Nothing is stated of the
/// value: it is the current time.
#[verifier::external_body]
fn unix_time_secs() -> Option<u64> {
    match std::time::SystemTime::now().duration_since(std::time::UNIX_EPOCH) {
        Ok(d) => Some(d.as_secs()),
        Err(_) => None,
    }
}

/// `now` is a value that a call of the clock (`unix_time_secs`) returned.
pub closed spec fn clock_gave(now: Option<u64>) -> bool {
    call_ensures(unix_time_secs, (), now)
}

/// The lower-case hexadecimal digit of a value below 16.
pub open spec fn hex_digit(n: nat) -> char {
    if n < 10 {
        ((48 + n) as u8) as char
    } else {
        ((87 + n) as u8) as char
    }
}

/// Lower-case hexadecimal form of bytes, two digits per byte, high nibble first.
pub open spec fn hex_lower(data: Seq<u8>) -> Seq<char>
    decreases data.len(),
{
    if data.len() == 0 {
        seq![]
    } else {
        hex_lower(data.drop_last()) + seq![
            hex_digit((data.last() / 16) as nat),
            hex_digit((data.last() % 16) as nat),
        ]
    }
}

fn hex_char(n: u8) -> (c: char)
    requires
        n < 16,
    ensures
        c == hex_digit(n as nat),
{
    if n < 10 {
        (48u8 + n) as char
    } else {
        (87u8 + n) as char
    }
}

/// Lower-case hexadecimal form of `data`.
pub fn to_hex(data: &[u8]) -> (res: String)
    ensures
        res@ == hex_lower(data@),
        res@.len() == 2 * data@.len(),
{
    let mut res = String::new();
    let mut i: usize = 0;
    while i < data.len()
        invariant
            i <= data.len(),
            res@ == hex_lower(data@.take(i as int)),
            res@.len() == 2 * i,
        decreases data.len() - i,
    {
        let b = data[i];
        push_char(&mut res, hex_char(b / 16));
        push_char(&mut res, hex_char(b % 16));
        proof {
            assert(data@.take(i + 1).drop_last() == data@.take(i as int));
            assert(data@.take(i + 1).last() == b);
        }
        i = i + 1;
    }
    assert(data@.take(data.len() as int) == data@);
    res
}


/// A client of one storage bucket.
pub struct CosClient {
    region: String,
    app_secert: String,
    app_id: String,
    bucket_id: String,
}

/// What a client is made of.
pub struct CosClientView {
    pub region: Seq<char>,
    pub app_secert: Seq<char>,
    pub app_id: Seq<char>,
    pub bucket_id: Seq<char>,
}

impl View for CosClient {
    type V = CosClientView;

    closed spec fn view(&self) -> CosClientView {
        CosClientView {
            region: self.region@,
            app_secert: self.app_secert@,
            app_id: self.app_id@,
            bucket_id: self.bucket_id@,
        }
    }
}

/// Hexadecimal HMAC-SHA1 of `data` under `key`.
pub open spec fn sign_spec(key: Seq<char>, data: Seq<char>) -> Seq<char> {
    hex_lower(hmac_sha1(key, data))
}

/// The validity window `start;end` of a signature.
pub open spec fn key_time(start: nat, end: nat) -> Seq<char> {
    text::decimal(start) + ";"@ + text::decimal(end)
}

/// The `Authorization` header value for a request with `method` on `uri`,
/// valid from `start` to `end` (seconds since the epoch).
pub open spec fn authorization(
    c: CosClientView,
    start: nat,
    end: nat,
    method: Seq<char>,
    uri: Seq<char>,
) -> Seq<char> {
    let kt = key_time(start, end);
    let sign_key = sign_spec(c.app_secert, kt);
    let from_str = method + "\n/"@ + uri + "\n\n\n"@;
    let str_to_sign = "sha1\n"@ + kt + "\n"@ + hex_lower(sha1_digest(from_str)) + "\n"@;
    let signature = sign_spec(sign_key, str_to_sign);
    "q-sign-algorithm=sha1&q-ak="@ + c.app_id + "&q-sign-time="@ + kt + "&q-key-time="@ + kt
        + "&q-header-list=&q-url-param-list=&q-signature="@ + signature
}

/// `authorization` for the window of `expiration` seconds from `now`.
pub open spec fn authorization_from(
    c: CosClientView,
    now: u64,
    expiration: u64,
    method: Seq<char>,
    uri: Seq<char>,
) -> Seq<char> {
    authorization(c, now as nat, (now + expiration) as nat, method, uri)
}

/// The address of the bucket: `https://{bucket_id}.cos.ap-{region}.myqcloud.com`.
pub open spec fn bucket_host(c: CosClientView) -> Seq<char> {
    "https://"@ + c.bucket_id + ".cos.ap-"@ + c.region + ".myqcloud.com"@
}

/// Hexadecimal HMAC-SHA1 of `key_time` under `key`.
pub fn sign(key: &str, key_time: &str) -> (res: String)
    ensures
        res@ == sign_spec(key@, key_time@),
        res@.len() == 40,
{
    let code = hmac_sha1_code(key, key_time);
    to_hex(code.as_slice())
}

impl CosClient {
    /// A client of the bucket `bucket_id` in `region`, signing with the
    /// secret `app_secert` of the key `app_id`.
    pub fn new(region: String, app_secert: String, app_id: String, bucket_id: String) -> (c:
        CosClient)
        ensures
            c@.region == region@,
            c@.app_secert == app_secert@,
            c@.app_id == app_id@,
            c@.bucket_id == bucket_id@,
    {
        CosClient { region, app_secert, app_id, bucket_id }
    }

    /// The `Authorization` value for `method` on `uri`, valid from `now` for
    /// `expiration` seconds.
    pub fn sign_at(&self, now: u64, method: &str, uri: &str, expiration: u64) -> (res: String)
        requires
            now + expiration <= u64::MAX,
        ensures
            res@ == authorization(self@, now as nat, (now + expiration) as nat, method@, uri@),
    {
        let end: u64 = now + expiration;
        let mut key_time = u64_to_decimal(now);
        key_time.append(";");
        key_time.append(u64_to_decimal(end).as_str());
        let sign_key = sign(self.app_secert.as_str(), key_time.as_str());
        let mut from_str = String::from_str(method);
        from_str.append("\n/");
        from_str.append(uri);
        from_str.append("\n\n\n");
        let hash_from_str = sha1_hex(from_str.as_str());
        let mut str_to_sign = String::from_str("sha1\n");
        str_to_sign.append(key_time.as_str());
        str_to_sign.append("\n");
        str_to_sign.append(hash_from_str.as_str());
        str_to_sign.append("\n");
        let signature = sign(sign_key.as_str(), str_to_sign.as_str());
        let mut auth = String::from_str("q-sign-algorithm=sha1&q-ak=");
        auth.append(self.app_id.as_str());
        auth.append("&q-sign-time=");
        auth.append(key_time.as_str());
        auth.append("&q-key-time=");
        auth.append(key_time.as_str());
        auth.append("&q-header-list=&q-url-param-list=&q-signature=");
        auth.append(signature.as_str());
        auth
    }

    /// The `Authorization` value for `method` on `uri`, valid for
    /// `expiration` seconds from the clock reading `now` (seconds since the
    /// epoch; `None` for a clock before the epoch). A missing reading, or a
    /// window whose end does not fit in 64 bits, gives `"app error"`.
    pub fn sign_with(&self, now: Option<u64>, method: &str, uri: &str, expiration: u64) -> (res:
        Result<String, String>)
        ensures
            match now {
                Some(t) => if t + expiration <= u64::MAX {
                    res matches Ok(s) && s@ == authorization_from(self@, t, expiration, method@, uri@)
                } else {
                    res matches Err(e) && e@ == "app error"@
                },
                None => res matches Err(e) && e@ == "app error"@,
            },
    {
        match now {
            Some(t) => {
                if t <= u64::MAX - expiration {
                    let s = self.sign_at(t, method, uri, expiration);
                    assert(s@ == authorization_from(self@, t, expiration, method@, uri@));
                    Ok(s)
                } else {
                    Err(String::from_str("app error"))
                }
            },
            None => Err(String::from_str("app error")),
        }
    }

    /// The `Authorization` value for `method` on `uri`, valid from the current
    /// time for `expiration` seconds: `sign_with` on the clock's reading. The
    /// window starts at the reading that the call of the clock gave.
    pub fn sign(&self, method: &str, uri: &str, expiration: u64) -> (res: Result<String, String>)
        ensures
            exists|now: Option<u64>|
                #[trigger] clock_gave(now) && match now {
                    Some(t) => if t + expiration <= u64::MAX {
                        res matches Ok(s) && s@ == authorization_from(
                            self@,
                            t,
                            expiration,
                            method@,
                            uri@,
                        )
                    } else {
                        res matches Err(e) && e@ == "app error"@
                    },
                    None => res matches Err(e) && e@ == "app error"@,
                },
            res matches Ok(s) ==> exists|now: u64|
                now + expiration <= u64::MAX && s@ == #[trigger] authorization_from(
                    self@,
                    now,
                    expiration,
                    method@,
                    uri@,
                ),
            res matches Err(e) ==> e@ == "app error"@,
    {
        let clock = unix_time_secs;
        let now = clock();
        assert(clock_gave(now));
        self.sign_with(now, method, uri, expiration)
    }

    /// The public address of `key` in the bucket `bucket`:
    /// `https://{bucket}-{bucket_id}.cos.ap-{region}.myqcloud.com/{key}`.
    pub fn get_object_url(&self, bucket: &str, key: &str) -> (url: String)
        ensures
            url@ == "https://"@ + bucket@ + "-"@ + self@.bucket_id + ".cos.ap-"@ + self@.region
                + ".myqcloud.com/"@ + key@,
    {
        let mut url = String::from_str("https://");
        url.append(bucket);
        url.append("-");
        url.append(self.bucket_id.as_str());
        url.append(".cos.ap-");
        url.append(self.region.as_str());
        url.append(".myqcloud.com/");
        url.append(key);
        url
    }

    /// The address an upload of `path` goes to; spaces in the path are
    /// written `%20`.
    pub fn put_object_url(&self, path: &str) -> (url: String)
        ensures
            url@ == bucket_host(self@) + "/"@ + text::replace(path@, " "@, "%20"@),
    {
        let mut url = String::from_str("https://");
        url.append(self.bucket_id.as_str());
        url.append(".cos.ap-");
        url.append(self.region.as_str());
        url.append(".myqcloud.com");
        url.append("/");
        proof {
            reveal_strlit(" ");
        }
        let escaped = replace_str(path, " ", "%20");
        url.append(escaped.as_str());
        url
    }

    /// The address a download of `path` reads from.
    pub fn get_object_host(&self, path: &str) -> (url: String)
        ensures
            url@ == bucket_host(self@) + "/"@ + path@,
    {
        let mut url = String::from_str("https://");
        url.append(self.bucket_id.as_str());
        url.append(".cos.ap-");
        url.append(self.region.as_str());
        url.append(".myqcloud.com");
        url.append("/");
        url.append(path);
        url
    }
}

/// How a download answered with an HTTP error `code` ends: `Some(code)` is
/// the error handed to the caller; `None` (403) means the configured referer
/// is refused, and the download cannot go on.
pub fn get_object_status(code: u16) -> (r: Option<u16>)
    ensures
        code == 403 <==> r is None,
        r matches Some(c) ==> c == code,
{
    if code == 404 {
        Some(code)
    } else if code == 403 {
        None
    } else {
        Some(code)
    }
}

} // verus!
