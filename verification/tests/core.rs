use dyndns::config::{first_present, DEFAULT_REFRESH_TIMEOUT};
use dyndns::domain::{effective_subdomain, split_domain};
use dyndns::ip::trim_whitespace;
use dyndns::reconcile::{commit_update, plan_cycle, CycleAction};
use dyndns::record::{find_a_record, find_a_record_index, DnsRecord, RecordKind};

fn record(kind: RecordKind, name: &str, value: &str) -> DnsRecord {
    DnsRecord { kind, name: name.to_string(), value: value.to_string() }
}

#[test]
fn split_deep_subdomain() {
    let (subdomain, zone) = split_domain("host.sub.example.com");
    assert_eq!(subdomain, "host.sub");
    assert_eq!(zone, "example.com");
}

#[test]
fn split_two_labels() {
    let (subdomain, zone) = split_domain("example.com");
    assert_eq!(subdomain, "");
    assert_eq!(zone, "example.com");
    let key = effective_subdomain(&subdomain, &zone);
    assert_eq!(key, "example.com");
}

#[test]
fn split_three_labels() {
    let (subdomain, zone) = split_domain("a.b.c");
    assert_eq!(subdomain, "a");
    assert_eq!(zone, "b.c");
}

#[test]
fn split_keeps_empty_labels() {
    let (subdomain, zone) = split_domain("x..y");
    assert_eq!(subdomain, "x");
    assert_eq!(zone, ".y");
}

#[test]
fn effective_subdomain_keeps_nonempty() {
    let key = effective_subdomain(&"www".to_string(), &"example.com".to_string());
    assert_eq!(key, "www");
}

#[test]
fn locator_picks_a_record_only() {
    let records = vec![
        record(RecordKind::A, "www", "1.1.1.1"),
        record(RecordKind::Cname, "www", "x"),
    ];
    let found = find_a_record(&records, &"www".to_string(), &"example.com".to_string());
    assert_eq!(found, Some(record(RecordKind::A, "www", "1.1.1.1")));
}

#[test]
fn locator_apex_rewrite() {
    let records = vec![record(RecordKind::A, "example.com", "1.1.1.1")];
    let found = find_a_record(&records, &"example.com".to_string(), &"example.com".to_string());
    assert_eq!(found, Some(record(RecordKind::A, "", "1.1.1.1")));
}

#[test]
fn locator_none_when_absent() {
    let records = vec![
        record(RecordKind::Cname, "www", "x"),
        record(RecordKind::A, "mail", "2.2.2.2"),
    ];
    let found = find_a_record(&records, &"www".to_string(), &"example.com".to_string());
    assert_eq!(found, None);
}

#[test]
fn locator_first_match_wins() {
    let records = vec![
        record(RecordKind::A, "www", "1.1.1.1"),
        record(RecordKind::A, "www", "2.2.2.2"),
    ];
    let found = find_a_record(&records, &"www".to_string(), &"example.com".to_string());
    assert_eq!(found, Some(record(RecordKind::A, "www", "1.1.1.1")));
}

#[test]
fn locator_index_first_match() {
    let records = vec![
        record(RecordKind::Cname, "www", "x"),
        record(RecordKind::A, "www", "1.1.1.1"),
    ];
    assert_eq!(find_a_record_index(&records, &"www".to_string()), Some(1));
    assert_eq!(find_a_record_index(&records, &"mail".to_string()), None);
}

#[test]
fn cycle_up_to_date_issues_no_update() {
    let state = Some(record(RecordKind::A, "www", "1.1.1.1"));
    let action = plan_cycle(&state, &"1.1.1.1".to_string());
    assert_eq!(action, CycleAction::UpToDate);
    assert_eq!(state, Some(record(RecordKind::A, "www", "1.1.1.1")));
}

#[test]
fn cycle_changed_ip_issues_one_update() {
    let mut state = Some(record(RecordKind::A, "www", "1.1.1.1"));
    let action = plan_cycle(&state, &"3.3.3.3".to_string());
    match action {
        CycleAction::Update { previous, replacement } => {
            assert_eq!(previous, record(RecordKind::A, "www", "1.1.1.1"));
            assert_eq!(replacement, record(RecordKind::A, "www", "3.3.3.3"));
            commit_update(&mut state, replacement);
        },
        other => panic!("expected an update, got {:?}", other),
    }
    assert_eq!(state, Some(record(RecordKind::A, "www", "3.3.3.3")));
}

#[test]
fn degraded_mode_never_updates() {
    let state: Option<DnsRecord> = None;
    let observed = ["1.1.1.1", "2.2.2.2", "3.3.3.3", "4.4.4.4", "5.5.5.5"];
    for ip in observed {
        let action = plan_cycle(&state, &ip.to_string());
        assert_eq!(action, CycleAction::ReportMissing);
        assert_eq!(state, None);
    }
}

#[test]
fn trim_strips_surrounding_whitespace() {
    assert_eq!(trim_whitespace(" \t1.2.3.4\r\n"), "1.2.3.4");
    assert_eq!(trim_whitespace("1.2.3.4"), "1.2.3.4");
    assert_eq!(trim_whitespace("a b"), "a b");
    assert_eq!(trim_whitespace(" \r\n\t"), "");
    assert_eq!(trim_whitespace(""), "");
}

#[test]
fn credential_fallback_order() {
    assert_eq!(
        first_present(Some("flag".to_string()), Some("env".to_string())),
        Some("flag".to_string())
    );
    assert_eq!(first_present(None, Some("env".to_string())), Some("env".to_string()));
    assert_eq!(first_present(Some("flag".to_string()), None), Some("flag".to_string()));
    assert_eq!(first_present(None, None), None);
}

#[test]
fn default_refresh_timeout_is_fifteen_minutes() {
    assert_eq!(DEFAULT_REFRESH_TIMEOUT, 900);
}
