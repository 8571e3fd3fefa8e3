use kfm_na::direct_brain::parse_https_url;

#[test]
fn parse_https_urls() {
    assert_eq!(
        parse_https_url("https://api.kimi.com/coding/v1").unwrap(),
        ("api.kimi.com".to_string(), 443, "/coding/v1".to_string())
    );
    assert_eq!(
        parse_https_url("https://example.com:8443/").unwrap(),
        ("example.com".to_string(), 8443, "/".to_string())
    );
    assert_eq!(
        parse_https_url("https://example.com").unwrap(),
        ("example.com".to_string(), 443, "/".to_string())
    );
    assert!(parse_https_url("http://example.com").is_err());
}

#[test]
fn https_url_errors_name_the_cause() {
    assert_eq!(
        parse_https_url("http://example.com").unwrap_err(),
        "只支持 https: http://example.com"
    );
    assert_eq!(
        parse_https_url("https://example.com:99999/x").unwrap_err(),
        "坏端口: example.com:99999"
    );
    assert_eq!(
        parse_https_url("https://example.com:/x").unwrap_err(),
        "坏端口: example.com:"
    );
}

#[test]
fn https_url_keeps_query_path() {
    assert_eq!(
        parse_https_url("https://h:1/a/b?c=d").unwrap(),
        ("h".to_string(), 1, "/a/b?c=d".to_string())
    );
}
