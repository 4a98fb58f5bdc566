use clash_cli::api::{bearer_header, endpoint, mode_url, proxy_url, switch_url, RequestError};

#[test]
fn bearer_header_for_secret() {
    assert_eq!(
        bearer_header(&Some("test-secret".to_string())),
        Some("Bearer test-secret".to_string())
    );
    assert_eq!(bearer_header(&Some(String::new())), None);
    assert_eq!(bearer_header(&None), None);
}

#[test]
fn endpoint_urls() {
    assert_eq!(endpoint("http://localhost:9090", "/version").unwrap(), "http://localhost:9090/version");
    assert_eq!(endpoint("", "/version"), Err(RequestError::EmptyBaseUrl));
    assert_eq!(proxy_url("http://h", "GLOBAL").unwrap(), "http://h/proxies/GLOBAL");
    assert_eq!(proxy_url("http://h", ""), Err(RequestError::EmptyProxyName));
    assert_eq!(proxy_url("", "x"), Err(RequestError::EmptyBaseUrl));
}

#[test]
fn switch_and_mode_urls() {
    assert_eq!(switch_url("http://h", "G", "P").unwrap(), "http://h/proxies/G");
    assert_eq!(switch_url("http://h", "", "P"), Err(RequestError::EmptyGroupName));
    assert_eq!(switch_url("http://h", "G", ""), Err(RequestError::EmptyProxyName));
    assert_eq!(mode_url("http://h", "Rule").unwrap(), "http://h/configs");
    assert_eq!(mode_url("http://h", ""), Err(RequestError::EmptyMode));
}
