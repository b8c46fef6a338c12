use do_ddns::wan_ip_query::{
    check_endpoints_present, default_api_file_text, default_api_urls, load_api_urls,
    query_failure, WanIpError,
};

#[test]
fn default_list_has_two_urls() {
    let urls = default_api_urls();
    assert_eq!(urls, vec!["https://api.seeip.org".to_string(), "https://api64.ipify.org".to_string()]);
}

#[test]
fn default_file_text_is_one_url_per_line() {
    assert_eq!(default_api_file_text(), "https://api.seeip.org\nhttps://api64.ipify.org\n");
}

#[test]
fn missing_file_falls_back_to_defaults() {
    let urls = load_api_urls(None).unwrap();
    assert_eq!(urls, default_api_urls());
}

#[test]
fn loads_nonempty_lines_in_order() {
    let contents = "https://a.example\n\nhttps://b.example/path\n";
    let urls = load_api_urls(Some(contents)).unwrap();
    assert_eq!(urls, vec!["https://a.example".to_string(), "https://b.example/path".to_string()]);
}

#[test]
fn list_without_trailing_newline_loads() {
    let urls = load_api_urls(Some("https://a.example")).unwrap();
    assert_eq!(urls, vec!["https://a.example".to_string()]);
}

#[test]
fn ill_formed_line_is_surfaced_at_load() {
    let contents = "https://a.example\nnot a url\nhttps://b.example\n";
    match load_api_urls(Some(contents)) {
        Err(WanIpError::UrlParse(line)) => assert_eq!(line, "not a url"),
        _ => panic!("expected a URL parse error"),
    }
}

#[test]
fn empty_file_loads_no_endpoints() {
    let urls = load_api_urls(Some("")).unwrap();
    assert!(urls.is_empty());
    match check_endpoints_present(&urls) {
        Err(WanIpError::NoApiEndpointsConfigured) => {}
        _ => panic!("expected the no-endpoints error"),
    }
}

#[test]
fn present_endpoints_pass_the_check() {
    assert!(check_endpoints_present(&default_api_urls()).is_ok());
}

#[test]
fn query_failure_keeps_last_error() {
    match query_failure(Some("connection refused".to_string())) {
        WanIpError::QueryFailed(m) => assert_eq!(m, "connection refused"),
        _ => panic!("expected a query failure"),
    }
    match query_failure(None) {
        WanIpError::QueryFailed(m) => assert_eq!(m, "Failed to query WAN IP"),
        _ => panic!("expected a query failure"),
    }
}
