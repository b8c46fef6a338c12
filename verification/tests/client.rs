use do_ddns::address::WanAddress;
use do_ddns::cli::{get_minimum_log_level, AppError, LogLevel};
use do_ddns::digitalocean::{
    classify_error_status, domain_records_path, domains_path, status_has_error_body,
    update_record_path, validate_api_key, Domain, NewClientError, QueryError,
};
use do_ddns::updater::{
    decide_after_cycle, decide_domains_outcome, decide_wan_outcome, DomainsDecision, WanDecision,
};
use do_ddns::wan_ip_query::WanIpError;

#[test]
fn ordinary_api_key_is_accepted() {
    assert!(validate_api_key("dop_v1_0123456789abcdef").is_ok());
    assert!(validate_api_key("").is_ok());
    assert!(validate_api_key("with space and\ttab").is_ok());
}

#[test]
fn control_characters_invalidate_the_key() {
    assert!(matches!(validate_api_key("abc\ndef"), Err(NewClientError::InvalidApiKey)));
    assert!(matches!(validate_api_key("abc\rdef"), Err(NewClientError::InvalidApiKey)));
    assert!(matches!(validate_api_key("\u{7f}"), Err(NewClientError::InvalidApiKey)));
}

#[test]
fn request_paths_are_built_exactly() {
    assert_eq!(domains_path(), "/v2/domains?per_page=200");
    assert_eq!(domain_records_path("example.com"), "/v2/domains/example.com/records");
    assert_eq!(
        update_record_path("example.com", 12345),
        "/v2/domains/example.com/records/12345"
    );
    assert_eq!(update_record_path("example.com", 0), "/v2/domains/example.com/records/0");
    assert_eq!(update_record_path("example.com", -7), "/v2/domains/example.com/records/-7");
}

#[test]
fn error_statuses_with_bodies_are_the_documented_four() {
    assert!(status_has_error_body(401));
    assert!(status_has_error_body(404));
    assert!(status_has_error_body(429));
    assert!(status_has_error_body(500));
    assert!(!status_has_error_body(200));
    assert!(!status_has_error_body(403));
    assert!(!status_has_error_body(502));
}

#[test]
fn statuses_classify_to_their_variants() {
    let m = || "m".to_string();
    assert!(matches!(classify_error_status(401, m()), QueryError::Unauthorized(s) if s == "m"));
    assert!(matches!(classify_error_status(404, m()), QueryError::NotFound(s) if s == "m"));
    assert!(matches!(classify_error_status(429, m()), QueryError::RateLimited(s) if s == "m"));
    assert!(matches!(classify_error_status(500, m()), QueryError::ServerError(s) if s == "m"));
    assert!(matches!(classify_error_status(418, m()), QueryError::UnexpectedStatus(418)));
}

#[test]
fn query_errors_describe_themselves() {
    assert_eq!(QueryError::RateLimited("slow down".to_string()).describe(), "RateLimited: slow down");
    assert_eq!(QueryError::Unauthorized("bad key".to_string()).describe(), "Unauthorized: bad key");
    assert_eq!(QueryError::UnexpectedStatus(418).describe(), "Unexpected status code: 418");
    assert_eq!(QueryError::ReqwestError("boom".to_string()).describe(), "SerializationError: boom");
}

#[test]
fn exit_codes_are_distinct_per_category() {
    assert_eq!(AppError::TestFailedDOKeyValidation.error_code(), 1);
    assert_eq!(
        AppError::TestFailedToQueryWanIp(WanIpError::NoApiEndpointsConfigured).error_code(),
        2
    );
    assert_eq!(
        AppError::CgNatWanIp(WanAddress::V4 { a: 100, b: 64, c: 0, d: 1 }).error_code(),
        2
    );
    assert_eq!(AppError::OtherError("boom".to_string()).error_code(), 3);
}

#[test]
fn log_level_follows_build_kind() {
    assert_eq!(get_minimum_log_level(true), LogLevel::Debug);
    assert_eq!(get_minimum_log_level(false), LogLevel::Info);
}

#[test]
fn cgnat_address_is_fatal_in_every_mode() {
    for apply in [false, true] {
        let cgnat = WanAddress::V4 { a: 100, b: 100, c: 0, d: 1 };
        match decide_wan_outcome(apply, Ok(cgnat)) {
            WanDecision::Fail(AppError::CgNatWanIp(WanAddress::V4 { a: 100, .. })) => {}
            _ => panic!("expected the carrier-grade-NAT failure"),
        }
    }
}

#[test]
fn usable_address_proceeds() {
    let addr = WanAddress::V4 { a: 198, b: 51, c: 100, d: 1 };
    assert!(matches!(decide_wan_outcome(true, Ok(addr)), WanDecision::Proceed(_)));
}

#[test]
fn resolver_failure_retries_only_in_apply_mode() {
    let err = || WanIpError::QueryFailed("down".to_string());
    assert!(matches!(decide_wan_outcome(true, Err(err())), WanDecision::Retry(_)));
    assert!(matches!(
        decide_wan_outcome(false, Err(err())),
        WanDecision::Fail(AppError::TestFailedToQueryWanIp(_))
    ));
}

#[test]
fn rejected_credential_is_fatal_in_every_mode() {
    for apply in [false, true] {
        let outcome: Result<Vec<Domain>, QueryError> =
            Err(QueryError::Unauthorized("no".to_string()));
        match decide_domains_outcome(apply, outcome) {
            DomainsDecision::Fail(AppError::TestFailedDOKeyValidation) => {}
            _ => panic!("expected the credential failure"),
        }
    }
}

#[test]
fn listing_failure_retries_only_in_apply_mode() {
    let err = || -> Result<Vec<Domain>, QueryError> {
        Err(QueryError::RateLimited("slow down".to_string()))
    };
    assert!(matches!(decide_domains_outcome(true, err()), DomainsDecision::Retry(_)));
    match decide_domains_outcome(false, err()) {
        DomainsDecision::Fail(AppError::OtherError(m)) => {
            assert_eq!(m, "RateLimited: slow down");
        }
        _ => panic!("expected the wrapped failure"),
    }
}

#[test]
fn listing_success_proceeds() {
    let domains = vec![Domain { name: "example.com".to_string(), ttl: None, zone_file: None }];
    match decide_domains_outcome(false, Ok(domains)) {
        DomainsDecision::Proceed(ds) => assert_eq!(ds.len(), 1),
        _ => panic!("expected to proceed"),
    }
}

#[test]
fn loop_repeats_only_when_applying_with_positive_interval() {
    assert_eq!(decide_after_cycle(false, Some(5)), None);
    assert_eq!(decide_after_cycle(false, None), None);
    assert_eq!(decide_after_cycle(true, None), None);
    assert_eq!(decide_after_cycle(true, Some(0)), None);
    assert_eq!(decide_after_cycle(true, Some(5)), Some(300));
    assert_eq!(decide_after_cycle(true, Some(1)), Some(60));
}
