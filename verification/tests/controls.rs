use inspect_report::criteria::SearchCriteria;
use inspect_report::query::ReportCache;
use inspect_report::record::{ConnectionKey, ConnectionRecord};
use inspect_report::sort::SortMode;
use inspect_report::state::{InspectState, ReportMessage};

fn sample(src_port: u16, bytes: u128) -> ConnectionRecord {
    ConnectionRecord {
        key: ConnectionKey {
            src_addr: 1,
            src_port,
            dst_addr: 2,
            dst_port: 80,
            protocol: 17,
        },
        bytes,
        packets: 3,
        last_seen: 9,
        favorite: false,
        outgoing: false,
        app: b"DNS".to_vec(),
        domain: b"example.org".to_vec(),
        country: b"DE".to_vec(),
        as_name: b"ExampleNet".to_vec(),
    }
}

#[test]
fn criteria_default_is_unconstrained() {
    let criteria = SearchCriteria::default();
    assert!(criteria.app.is_empty());
    assert!(criteria.domain.is_empty());
    assert!(criteria.country.is_empty());
    assert!(criteria.as_name.is_empty());
    assert!(!criteria.only_favorites);
    assert!(!criteria.is_some_filter_active());
}

#[test]
fn replacing_one_field_keeps_the_others() {
    let criteria = SearchCriteria::default()
        .with_app(b"TLS".to_vec())
        .with_domain(b"example".to_vec());
    let replaced = criteria.with_country(b"IT".to_vec());
    assert_eq!(replaced.app, b"TLS".to_vec());
    assert_eq!(replaced.domain, b"example".to_vec());
    assert_eq!(replaced.country, b"IT".to_vec());
    assert!(replaced.as_name.is_empty());
    assert!(replaced.is_some_filter_active());
}

#[test]
fn clearing_one_filter_means_no_constraint() {
    let criteria = SearchCriteria::default().with_domain(b"x".to_vec());
    let cleared = criteria.with_domain(Vec::new());
    assert!(!cleared.is_some_filter_active());
}

#[test]
fn favorites_flag_alone_counts_as_active_filter() {
    let criteria = SearchCriteria::default().with_only_favorites(true);
    assert!(criteria.is_some_filter_active());
}

#[test]
fn criteria_comparison_is_by_contents() {
    let a = SearchCriteria::default().with_app(b"TLS".to_vec());
    let b = SearchCriteria::default().with_app(b"TLS".to_vec());
    let c = SearchCriteria::default().with_app(b"QUIC".to_vec());
    assert!(a.same_as(&b));
    assert!(!a.same_as(&c));
}

#[test]
fn dispatch_steps_pages_and_floors_at_one() {
    let mut state = InspectState::new();
    assert_eq!(state.page, 1);
    state.dispatch(&ReportMessage::NextPage);
    state.dispatch(&ReportMessage::NextPage);
    assert_eq!(state.page, 3);
    state.dispatch(&ReportMessage::PreviousPage);
    assert_eq!(state.page, 2);
    state.dispatch(&ReportMessage::PreviousPage);
    state.dispatch(&ReportMessage::PreviousPage);
    assert_eq!(state.page, 1);
}

#[test]
fn dispatch_replaces_criteria_and_mode_wholesale() {
    let mut state = InspectState::new();
    state.dispatch(&ReportMessage::SetSortMode(SortMode::MostPackets));
    assert_eq!(state.mode, SortMode::MostPackets);
    assert_eq!(state.page, 1);
    let criteria = SearchCriteria::default().with_country(b"IT".to_vec());
    state.dispatch(&ReportMessage::SetCriteria(criteria));
    assert_eq!(state.criteria.country, b"IT".to_vec());
    assert_eq!(state.mode, SortMode::MostPackets);
}

#[test]
fn cache_hit_returns_the_same_page() {
    let snapshot = vec![sample(1, 10), sample(2, 30), sample(3, 20)];
    let criteria = SearchCriteria::default();
    let mut cache = ReportCache::new();
    let first = cache.query_cached(&snapshot, 60, &criteria, SortMode::MostBytes, 1);
    assert!(cache.valid);
    let second = cache.query_cached(&snapshot, 60, &criteria, SortMode::MostBytes, 1);
    assert_eq!(first.total_matches, second.total_matches);
    let a: Vec<u128> = first.rows.iter().map(|r| r.bytes).collect();
    let b: Vec<u128> = second.rows.iter().map(|r| r.bytes).collect();
    assert_eq!(a, vec![30, 20, 10]);
    assert_eq!(a, b);
}

#[test]
fn cache_recomputes_when_any_key_part_changes() {
    let snapshot = vec![sample(1, 10), sample(2, 30), sample(3, 20)];
    let criteria = SearchCriteria::default();
    let mut cache = ReportCache::new();
    let by_bytes = cache.query_cached(&snapshot, 60, &criteria, SortMode::MostBytes, 1);
    assert_eq!(by_bytes.rows[0].bytes, 30);
    // same counter and snapshot, different mode: must recompute
    let by_recent = cache.query_cached(&snapshot, 60, &criteria, SortMode::MostRecent, 1);
    let ports: Vec<u16> = by_recent.rows.iter().map(|r| r.key.src_port).collect();
    assert_eq!(ports, vec![1, 2, 3]);
    // a grown store under a new counter is picked up
    let mut grown = Vec::new();
    for r in &snapshot {
        grown.push(r.duplicate());
    }
    grown.push(sample(4, 99));
    let after = cache.query_cached(&grown, 75, &criteria, SortMode::MostBytes, 1);
    assert_eq!(after.total_matches, 4);
    assert_eq!(after.rows[0].bytes, 99);
}
