use novel::args::{Args, ArgsError};

fn argv(v: &[&str]) -> Vec<String> {
    v.iter().map(|s| s.to_string()).collect()
}

#[test]
fn defaults() {
    let a = Args::default();
    assert_eq!(a.title, 1);
    assert!(!a.help);
    assert_eq!(a.url, "");
    assert!(!a.no_upload);
    assert!(!a.no_upload_cache);
    assert_eq!(a.sleep, 5);
    assert_eq!(a.retry, 3);
    assert_eq!(a.proxy, "");
    assert_eq!(a.new_title, "");
    assert!(!a.no_img);
}

#[test]
fn all_options() {
    let a = Args::parse(&argv(&[
        "--title", "2", "--no-up", "--sleep", "10", "--retry", "+4", "--proxy", "h:8080", "--nt",
        "{\"a\":\"b\"}", "https://www.wenku8.net/book/1.htm",
    ]))
    .unwrap();
    assert_eq!(a.title, 2);
    assert!(a.no_upload);
    assert_eq!(a.sleep, 10);
    assert_eq!(a.retry, 4);
    assert_eq!(a.proxy, "h:8080");
    assert_eq!(a.new_title, "{\"a\":\"b\"}");
    assert_eq!(a.url, "https://www.wenku8.net/book/1.htm");
    assert!(!a.help);
}

#[test]
fn last_url_wins() {
    let a = Args::parse(&argv(&["u1", "u2"])).unwrap();
    assert_eq!(a.url, "u2");
}

#[test]
fn help_stops_reading() {
    let a = Args::parse(&argv(&["u1", "--help", "--title", "9"])).unwrap();
    assert!(a.help);
    assert_eq!(a.url, "u1");
    assert_eq!(a.title, 1);
}

#[test]
fn refused_command_lines() {
    assert_eq!(Args::parse(&argv(&["--title"])).unwrap_err(), ArgsError::TitleMissing);
    assert_eq!(Args::parse(&argv(&["--title", "3"])).unwrap_err(), ArgsError::TitleInvalid);
    assert_eq!(Args::parse(&argv(&["--title", "x"])).unwrap_err(), ArgsError::TitleInvalid);
    assert_eq!(Args::parse(&argv(&["--sleep"])).unwrap_err(), ArgsError::SleepMissing);
    assert_eq!(Args::parse(&argv(&["--sleep", "-1"])).unwrap_err(), ArgsError::SleepInvalid);
    assert_eq!(Args::parse(&argv(&["--retry"])).unwrap_err(), ArgsError::RetryMissing);
    assert_eq!(Args::parse(&argv(&["--retry", ""])).unwrap_err(), ArgsError::RetryInvalid);
    assert_eq!(Args::parse(&argv(&["--proxy"])).unwrap_err(), ArgsError::ProxyMissing);
    assert_eq!(Args::parse(&argv(&["--nt"])).unwrap_err(), ArgsError::NewTitleMissing);
}

#[test]
fn error_messages() {
    assert_eq!(ArgsError::TitleMissing.message(), "--title number");
    assert_eq!(ArgsError::TitleInvalid.message(), "--title 0,1,2");
    assert_eq!(ArgsError::SleepInvalid.message(), "--sleep number");
    assert_eq!(ArgsError::RetryMissing.message(), "--retry number");
    assert_eq!(ArgsError::ProxyMissing.message(), "--proxy host:port");
    assert_eq!(ArgsError::NewTitleMissing.message(), "--nt json");
}
