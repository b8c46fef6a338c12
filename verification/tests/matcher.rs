use do_ddns::digitalocean::{Domain, Record};
use do_ddns::updater::{
    choose_domain_for, find_record, map_domain_args_to_account_domains, plan_for_domain,
    RecordPlan,
};

fn domain(name: &str) -> Domain {
    Domain { name: name.to_string(), ttl: None, zone_file: None }
}

fn record(id: i32, ty: &str, name: &str, data: &str, ttl: i32) -> Record {
    Record {
        id,
        ty: ty.to_string(),
        name: name.to_string(),
        data: data.to_string(),
        priority: None,
        port: None,
        ttl,
        weight: None,
        flags: None,
        tag: None,
    }
}

#[test]
fn suffix_match_assigns_fqdn_to_domain() {
    let domains = vec![domain("example.com"), domain("other.net")];
    let args = vec!["home.example.com".to_string()];
    let r = map_domain_args_to_account_domains(&args, &domains);
    assert!(r.unknown.is_empty());
    assert_eq!(r.groups.len(), 1);
    assert_eq!(r.groups[0].domain_index, 0);
    assert_eq!(r.groups[0].fqdns, vec!["home.example.com".to_string()]);
}

#[test]
fn matching_is_case_insensitive() {
    let domains = vec![domain("Example.COM")];
    let args = vec!["HOME.example.Com".to_string()];
    let r = map_domain_args_to_account_domains(&args, &domains);
    assert!(r.unknown.is_empty());
    assert_eq!(r.groups.len(), 1);
    assert_eq!(r.groups[0].fqdns, vec!["HOME.example.Com".to_string()]);
}

#[test]
fn longest_suffix_wins() {
    let domains = vec![domain("example.com"), domain("home.example.com")];
    let args = vec!["cam.home.example.com".to_string()];
    let r = map_domain_args_to_account_domains(&args, &domains);
    assert_eq!(r.groups.len(), 1);
    assert_eq!(r.groups[0].domain_index, 1);
}

#[test]
fn choose_domain_prefers_longest_then_earliest() {
    let domains = vec![domain("example.com"), domain("home.example.com")];
    assert_eq!(choose_domain_for("cam.home.example.com", &domains), Some(1));
    assert_eq!(choose_domain_for("www.example.com", &domains), Some(0));
    assert_eq!(choose_domain_for("www.elsewhere.org", &domains), None);
}

#[test]
fn unmatched_fqdn_goes_to_unknown_only() {
    let domains = vec![domain("example.com")];
    let args = vec!["sub.unknown-domain.tld".to_string(), "home.example.com".to_string()];
    let r = map_domain_args_to_account_domains(&args, &domains);
    assert_eq!(r.unknown, vec!["sub.unknown-domain.tld".to_string()]);
    assert_eq!(r.groups.len(), 1);
    for g in &r.groups {
        assert!(!g.fqdns.contains(&"sub.unknown-domain.tld".to_string()));
    }
}

#[test]
fn grouping_keeps_input_order_within_domain() {
    let domains = vec![domain("example.com"), domain("other.net")];
    let args = vec![
        "b.example.com".to_string(),
        "x.other.net".to_string(),
        "a.example.com".to_string(),
    ];
    let r = map_domain_args_to_account_domains(&args, &domains);
    assert!(r.unknown.is_empty());
    assert_eq!(r.groups.len(), 2);
    let example = r.groups.iter().find(|g| g.domain_index == 0).unwrap();
    assert_eq!(example.fqdns, vec!["b.example.com".to_string(), "a.example.com".to_string()]);
    let other = r.groups.iter().find(|g| g.domain_index == 1).unwrap();
    assert_eq!(other.fqdns, vec!["x.other.net".to_string()]);
}

#[test]
fn finds_record_by_type_and_name() {
    let records = vec![
        record(1, "AAAA", "home", "2001:db8::1", 1800),
        record(2, "A", "home", "198.51.100.1", 1800),
        record(3, "A", "home", "198.51.100.2", 1800),
    ];
    // the first record of the right type whose name matches wins
    assert_eq!(find_record(&records, "example.com", "home.example.com", "A"), Some(1));
    assert_eq!(find_record(&records, "example.com", "HOME.EXAMPLE.COM", "A"), Some(1));
    assert_eq!(find_record(&records, "example.com", "home.example.com", "AAAA"), Some(0));
}

#[test]
fn missing_record_is_reported_as_none() {
    let records = vec![record(1, "CNAME", "home", "example.com.", 1800)];
    assert_eq!(find_record(&records, "example.com", "home.example.com", "A"), None);
    assert_eq!(find_record(&records, "example.com", "other.example.com", "A"), None);
}

#[test]
fn plan_issues_one_update_with_new_value() {
    let records = vec![record(7, "A", "home", "198.51.100.1", 1800)];
    let fqdns = vec!["home.example.com".to_string()];
    let plan = plan_for_domain("A", "198.51.100.99", "example.com", &fqdns, &records);
    assert_eq!(plan.len(), 1);
    match &plan[0] {
        RecordPlan::NeedsUpdate { fqdn, record_id, record_type, old_value, new_value, ttl, .. } => {
            assert_eq!(fqdn, "home.example.com");
            assert_eq!(*record_id, 7);
            assert_eq!(record_type, "A");
            assert_eq!(old_value, "198.51.100.1");
            assert_eq!(new_value, "198.51.100.99");
            assert_eq!(*ttl, 1800);
        }
        other => panic!("expected a write, got {:?}", plan_kind(other)),
    }
}

#[test]
fn plan_reports_up_to_date_without_write() {
    let records = vec![record(7, "A", "home", "198.51.100.99", 1800)];
    let fqdns = vec!["home.example.com".to_string()];
    let plan = plan_for_domain("A", "198.51.100.99", "example.com", &fqdns, &records);
    assert_eq!(plan.len(), 1);
    match &plan[0] {
        RecordPlan::UpToDate { fqdn, current, ttl } => {
            assert_eq!(fqdn, "home.example.com");
            assert_eq!(current, "198.51.100.99");
            assert_eq!(*ttl, 1800);
        }
        other => panic!("expected up to date, got {:?}", plan_kind(other)),
    }
}

#[test]
fn plan_reports_missing_record() {
    let records = vec![record(7, "AAAA", "home", "2001:db8::1", 1800)];
    let fqdns = vec!["home.example.com".to_string()];
    let plan = plan_for_domain("A", "198.51.100.99", "example.com", &fqdns, &records);
    assert_eq!(plan.len(), 1);
    assert!(matches!(&plan[0], RecordPlan::Missing { fqdn } if fqdn == "home.example.com"));
}

fn plan_kind(p: &RecordPlan) -> &'static str {
    match p {
        RecordPlan::UpToDate { .. } => "up to date",
        RecordPlan::NeedsUpdate { .. } => "needs update",
        RecordPlan::Missing { .. } => "missing",
    }
}

#[test]
fn second_run_with_unchanged_wan_plans_no_write() {
    let wan = "198.51.100.99";
    let mut records = vec![
        record(7, "A", "home", "198.51.100.1", 1800),
        record(8, "A", "cam", "198.51.100.99", 1800),
        record(9, "AAAA", "home", "2001:db8::1", 1800),
    ];
    let fqdns = vec!["home.example.com".to_string(), "cam.example.com".to_string()];
    let first = plan_for_domain("A", wan, "example.com", &fqdns, &records);
    let mut writes = 0;
    for entry in &first {
        if let RecordPlan::NeedsUpdate { record_index, new_value, .. } = entry {
            records[*record_index].data = new_value.clone();
            writes += 1;
        }
    }
    assert_eq!(writes, 1);
    let second = plan_for_domain("A", wan, "example.com", &fqdns, &records);
    assert_eq!(second.len(), first.len());
    for entry in &second {
        assert!(matches!(entry, RecordPlan::UpToDate { .. }));
    }
}
