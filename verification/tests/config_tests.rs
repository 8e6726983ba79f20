use rbench::config::{
    parse_export_format, parse_header, pool_settings, trim_str, validate, ConfigError,
    ExportFormat, RunConfig,
};

fn base_config() -> RunConfig {
    RunConfig {
        url: String::from("http://localhost:8080/"),
        requests: 100,
        concurrency: 10,
        timelimit_secs: None,
        post_body: None,
        proxy: None,
        content_type: None,
        headers: Vec::new(),
        keepalive: false,
    }
}

#[test]
fn valid_config_passes() {
    assert_eq!(validate(&base_config()), Ok(()));
}

#[test]
fn zero_concurrency_rejected() {
    let mut c = base_config();
    c.concurrency = 0;
    assert_eq!(validate(&c), Err(ConfigError::ZeroConcurrency));
}

#[test]
fn zero_requests_without_timelimit_rejected() {
    let mut c = base_config();
    c.requests = 0;
    assert_eq!(validate(&c), Err(ConfigError::ZeroRequests));
    // a time limit makes the request count irrelevant
    c.timelimit_secs = Some(5);
    assert_eq!(validate(&c), Ok(()));
}

#[test]
fn proxy_scheme_checked() {
    let mut c = base_config();
    for good in ["http://p:1", "https://p:1", "socks4://p:1", "socks5://127.0.0.1:1080"] {
        c.proxy = Some(String::from(good));
        assert_eq!(validate(&c), Ok(()));
    }
    for bad in ["ftp://p:1", "socks6://p:1", "p:1", ""] {
        c.proxy = Some(String::from(bad));
        assert_eq!(validate(&c), Err(ConfigError::InvalidProxyScheme));
    }
}

#[test]
fn malformed_header_rejected() {
    let mut c = base_config();
    c.headers = vec![String::from("Content-Type: text/plain"), String::from("no colon here")];
    assert_eq!(validate(&c), Err(ConfigError::MalformedHeader));
    c.headers = vec![String::from("X-A: 1"), String::from("X-B: 2")];
    assert_eq!(validate(&c), Ok(()));
    c.headers = vec![String::from("")];
    assert_eq!(validate(&c), Err(ConfigError::MalformedHeader));
}

#[test]
fn error_messages_are_descriptive() {
    assert!(ConfigError::ZeroConcurrency.message().contains("concurrency"));
    assert!(ConfigError::ZeroRequests.message().contains("requests"));
    assert!(ConfigError::InvalidProxyScheme.message().contains("socks5://"));
    assert!(ConfigError::MalformedHeader.message().contains("Key: Value"));
}

#[test]
fn header_line_splits_at_first_colon() {
    assert_eq!(
        parse_header("Content-Type: application/json"),
        Some((String::from("Content-Type"), String::from("application/json")))
    );
    assert_eq!(
        parse_header("  X-Token :  abc:def  "),
        Some((String::from("X-Token"), String::from("abc:def")))
    );
    assert_eq!(parse_header("Name:"), Some((String::from("Name"), String::from(""))));
    assert_eq!(parse_header("no colon here"), None);
    assert_eq!(parse_header(""), None);
}

#[test]
fn trim_removes_outer_whitespace_only() {
    assert_eq!(trim_str("  a b \t"), String::from("a b"));
    assert_eq!(trim_str("\r\n"), String::from(""));
    assert_eq!(trim_str("x"), String::from("x"));
    // the full Unicode white-space set, as str::trim takes it
    assert_eq!(trim_str("\u{00A0}\u{2003}x\u{000B}\u{3000}"), String::from("x"));
    assert_eq!(trim_str("\u{2028}\u{0085}"), String::from(""));
    assert_eq!(trim_str("a\u{00A0}b"), String::from("a\u{00A0}b"));
}

#[test]
fn export_format_word_recognized_case_insensitively() {
    assert_eq!(parse_export_format("json"), Some(ExportFormat::Json));
    assert_eq!(parse_export_format("JSON"), Some(ExportFormat::Json));
    assert_eq!(parse_export_format("Json"), Some(ExportFormat::Json));
    assert_eq!(parse_export_format("csv"), Some(ExportFormat::Csv));
    assert_eq!(parse_export_format("CSV"), Some(ExportFormat::Csv));
    assert_eq!(parse_export_format("xml"), None);
    assert_eq!(parse_export_format(""), None);
}

#[test]
fn pool_settings_follow_keepalive() {
    assert_eq!(pool_settings(true, 10), (10, Some(90)));
    assert_eq!(pool_settings(false, 10), (0, None));
}
