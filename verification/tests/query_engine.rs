use inspect_report::criteria::SearchCriteria;
use inspect_report::query::{full_report, query_report};
use inspect_report::record::{ConnectionKey, ConnectionRecord};
use inspect_report::sort::SortMode;

fn rec(
    src_port: u16,
    bytes: u128,
    packets: u64,
    last_seen: u64,
    favorite: bool,
    app: &str,
    domain: &str,
    country: &str,
    as_name: &str,
) -> ConnectionRecord {
    ConnectionRecord {
        key: ConnectionKey {
            src_addr: 0x0a00_0001,
            src_port,
            dst_addr: 0x5db8_d822,
            dst_port: 443,
            protocol: 6,
        },
        bytes,
        packets,
        last_seen,
        favorite,
        outgoing: true,
        app: app.as_bytes().to_vec(),
        domain: domain.as_bytes().to_vec(),
        country: country.as_bytes().to_vec(),
        as_name: as_name.as_bytes().to_vec(),
    }
}

fn plain(src_port: u16, bytes: u128) -> ConnectionRecord {
    rec(src_port, bytes, 1, 1, false, "TLS", "example.com", "IT", "ExampleNet")
}

#[test]
fn most_bytes_orders_descending() {
    let snapshot = vec![plain(1, 100), plain(2, 500), plain(3, 50)];
    let page = query_report(&snapshot, &SearchCriteria::default(), SortMode::MostBytes, 1);
    assert_eq!(page.total_matches, 3);
    let bytes: Vec<u128> = page.rows.iter().map(|r| r.bytes).collect();
    assert_eq!(bytes, vec![500, 100, 50]);
}

#[test]
fn only_favorites_keeps_flagged_record() {
    let mut snapshot = vec![plain(1, 100), plain(2, 500), plain(3, 50)];
    snapshot[1].favorite = true;
    let criteria = SearchCriteria::default().with_only_favorites(true);
    let page = query_report(&snapshot, &criteria, SortMode::MostBytes, 1);
    assert_eq!(page.total_matches, 1);
    assert_eq!(page.rows.len(), 1);
    assert_eq!(page.rows[0].bytes, 500);
}

#[test]
fn third_page_of_forty_five() {
    let snapshot: Vec<ConnectionRecord> =
        (0..45).map(|i| plain(i as u16, 1000 - i as u128)).collect();
    let page = query_report(&snapshot, &SearchCriteria::default(), SortMode::MostBytes, 3);
    assert_eq!(page.total_matches, 45);
    assert_eq!(page.total_pages, 3);
    assert_eq!(page.page, 3);
    assert_eq!(page.rows.len(), 5);
    assert_eq!(page.start_index, 40);
    assert_eq!(page.first_shown(), 41);
    assert_eq!(page.last_shown(), 45);
}

#[test]
fn page_beyond_total_clamps_to_last() {
    let snapshot: Vec<ConnectionRecord> =
        (0..45).map(|i| plain(i as u16, 1000 - i as u128)).collect();
    let direct = query_report(&snapshot, &SearchCriteria::default(), SortMode::MostBytes, 3);
    let clamped = query_report(&snapshot, &SearchCriteria::default(), SortMode::MostBytes, 10);
    assert_eq!(clamped.page, 3);
    assert_eq!(clamped.start_index, direct.start_index);
    assert_eq!(clamped.rows.len(), direct.rows.len());
    for (a, b) in clamped.rows.iter().zip(direct.rows.iter()) {
        assert_eq!(a.key, b.key);
    }
}

#[test]
fn page_zero_clamps_to_first() {
    let snapshot = vec![plain(1, 100), plain(2, 500)];
    let first = query_report(&snapshot, &SearchCriteria::default(), SortMode::MostBytes, 1);
    let zero = query_report(&snapshot, &SearchCriteria::default(), SortMode::MostBytes, 0);
    assert_eq!(zero.page, 1);
    assert_eq!(zero.rows.len(), first.rows.len());
    for (a, b) in zero.rows.iter().zip(first.rows.iter()) {
        assert_eq!(a.key, b.key);
    }
}

#[test]
fn unresolved_domain_never_matches_domain_filter() {
    let snapshot = vec![rec(1, 100, 1, 1, false, "TLS", "", "IT", "ExampleNet")];
    let criteria = SearchCriteria::default().with_domain(b"example.com".to_vec());
    let page = query_report(&snapshot, &criteria, SortMode::MostRecent, 1);
    assert_eq!(page.total_matches, 0);
    assert!(page.no_matches());
    assert!(page.rows.is_empty());
}

#[test]
fn text_filter_matches_substring_not_equality() {
    let snapshot = vec![plain(1, 100)];
    let criteria = SearchCriteria::default().with_domain(b"ample".to_vec());
    let page = query_report(&snapshot, &criteria, SortMode::MostRecent, 1);
    assert_eq!(page.total_matches, 1);
}

#[test]
fn text_filter_is_case_sensitive() {
    let snapshot = vec![plain(1, 100)];
    let criteria = SearchCriteria::default().with_domain(b"Example".to_vec());
    let page = query_report(&snapshot, &criteria, SortMode::MostRecent, 1);
    assert_eq!(page.total_matches, 0);
}

#[test]
fn all_active_filters_must_match() {
    let snapshot = vec![plain(1, 100)];
    let both = SearchCriteria::default()
        .with_domain(b"example".to_vec())
        .with_country(b"IT".to_vec());
    assert_eq!(query_report(&snapshot, &both, SortMode::MostRecent, 1).total_matches, 1);
    let half = SearchCriteria::default()
        .with_domain(b"example".to_vec())
        .with_country(b"DE".to_vec());
    assert_eq!(query_report(&snapshot, &half, SortMode::MostRecent, 1).total_matches, 0);
}

#[test]
fn adding_a_constraint_never_widens_the_match_set() {
    let mut snapshot = vec![plain(1, 100), plain(2, 200), plain(3, 300)];
    snapshot[0].favorite = true;
    let loose = SearchCriteria::default().with_domain(b"example".to_vec());
    let strict = loose.duplicate().with_only_favorites(true);
    let loose_count = query_report(&snapshot, &loose, SortMode::MostRecent, 1).total_matches;
    let strict_count = query_report(&snapshot, &strict, SortMode::MostRecent, 1).total_matches;
    assert_eq!(loose_count, 3);
    assert_eq!(strict_count, 1);
    assert!(strict_count <= loose_count);
}

#[test]
fn ties_break_by_identity_key_and_requery_is_stable() {
    // same byte count everywhere: order must fall back to the key
    let snapshot = vec![plain(30, 100), plain(10, 100), plain(20, 100)];
    let first = query_report(&snapshot, &SearchCriteria::default(), SortMode::MostBytes, 1);
    let ports: Vec<u16> = first.rows.iter().map(|r| r.key.src_port).collect();
    assert_eq!(ports, vec![10, 20, 30]);
    let again = query_report(&snapshot, &SearchCriteria::default(), SortMode::MostBytes, 1);
    let ports_again: Vec<u16> = again.rows.iter().map(|r| r.key.src_port).collect();
    assert_eq!(ports, ports_again);
}

#[test]
fn concatenated_pages_reproduce_the_full_report() {
    let snapshot: Vec<ConnectionRecord> =
        (0..45).map(|i| plain(i as u16, (i as u128) * 7 % 23)).collect();
    let criteria = SearchCriteria::default();
    let full = full_report(&snapshot, &criteria, SortMode::MostBytes);
    assert_eq!(full.len(), 45);
    let mut seen: Vec<ConnectionKey> = Vec::new();
    let mut pages_sizes: Vec<usize> = Vec::new();
    let total_pages = query_report(&snapshot, &criteria, SortMode::MostBytes, 1).total_pages;
    assert_eq!(total_pages, 3);
    for p in 1..=total_pages {
        let page = query_report(&snapshot, &criteria, SortMode::MostBytes, p);
        pages_sizes.push(page.rows.len());
        for r in &page.rows {
            seen.push(r.key);
        }
    }
    assert_eq!(pages_sizes, vec![20, 20, 5]);
    let full_keys: Vec<ConnectionKey> = full.iter().map(|r| r.key).collect();
    assert_eq!(seen, full_keys);
}

#[test]
fn clearing_filters_restores_the_full_set() {
    let mut snapshot = vec![plain(1, 1), plain(2, 2), plain(3, 3)];
    snapshot[2].favorite = true;
    let narrowed = SearchCriteria::default().with_only_favorites(true);
    assert_eq!(query_report(&snapshot, &narrowed, SortMode::MostBytes, 1).total_matches, 1);
    let cleared = query_report(&snapshot, &SearchCriteria::default(), SortMode::MostBytes, 1);
    assert_eq!(cleared.total_matches, 3);
    let unfiltered = query_report(&snapshot, &SearchCriteria::default(), SortMode::MostBytes, 1);
    assert_eq!(cleared.rows.len(), unfiltered.rows.len());
}

#[test]
fn most_recent_orders_by_last_seen() {
    let snapshot = vec![
        rec(1, 10, 1, 100, false, "TLS", "a.com", "IT", "A"),
        rec(2, 10, 1, 300, false, "TLS", "b.com", "IT", "B"),
        rec(3, 10, 1, 200, false, "TLS", "c.com", "IT", "C"),
    ];
    let page = query_report(&snapshot, &SearchCriteria::default(), SortMode::MostRecent, 1);
    let stamps: Vec<u64> = page.rows.iter().map(|r| r.last_seen).collect();
    assert_eq!(stamps, vec![300, 200, 100]);
}

#[test]
fn most_packets_orders_by_packets() {
    let snapshot = vec![
        rec(1, 10, 5, 1, false, "TLS", "a.com", "IT", "A"),
        rec(2, 10, 50, 1, false, "TLS", "b.com", "IT", "B"),
        rec(3, 10, 500, 1, false, "TLS", "c.com", "IT", "C"),
    ];
    let page = query_report(&snapshot, &SearchCriteria::default(), SortMode::MostPackets, 1);
    let packets: Vec<u64> = page.rows.iter().map(|r| r.packets).collect();
    assert_eq!(packets, vec![500, 50, 5]);
}

#[test]
fn empty_snapshot_has_one_empty_page() {
    let snapshot: Vec<ConnectionRecord> = Vec::new();
    let page = query_report(&snapshot, &SearchCriteria::default(), SortMode::MostRecent, 1);
    assert_eq!(page.total_matches, 0);
    assert_eq!(page.total_pages, 1);
    assert_eq!(page.page, 1);
    assert!(page.no_matches());
    assert!(page.rows.is_empty());
    assert!(!page.has_next_page());
    assert!(!page.has_previous_page());
}

#[test]
fn page_navigation_flags() {
    let snapshot: Vec<ConnectionRecord> =
        (0..45).map(|i| plain(i as u16, i as u128)).collect();
    let first = query_report(&snapshot, &SearchCriteria::default(), SortMode::MostBytes, 1);
    assert!(first.has_next_page());
    assert!(!first.has_previous_page());
    let last = query_report(&snapshot, &SearchCriteria::default(), SortMode::MostBytes, 3);
    assert!(!last.has_next_page());
    assert!(last.has_previous_page());
}

#[test]
fn app_and_as_name_filters_apply() {
    let snapshot = vec![
        rec(1, 10, 1, 1, false, "TLS", "a.com", "IT", "Alpha Net"),
        rec(2, 10, 1, 1, false, "QUIC", "b.com", "IT", "Beta Net"),
    ];
    let by_app = SearchCriteria::default().with_app(b"QUIC".to_vec());
    let page = query_report(&snapshot, &by_app, SortMode::MostRecent, 1);
    assert_eq!(page.total_matches, 1);
    assert_eq!(page.rows[0].key.src_port, 2);
    let by_as = SearchCriteria::default().with_as_name(b"Alpha".to_vec());
    let page = query_report(&snapshot, &by_as, SortMode::MostRecent, 1);
    assert_eq!(page.total_matches, 1);
    assert_eq!(page.rows[0].key.src_port, 1);
}

#[test]
fn page_count_boundary_at_multiples_of_page_size() {
    let exactly: Vec<ConnectionRecord> = (0..20).map(|i| plain(i as u16, i as u128)).collect();
    let page = query_report(&exactly, &SearchCriteria::default(), SortMode::MostBytes, 1);
    assert_eq!(page.total_pages, 1);
    assert_eq!(page.rows.len(), 20);
    let one_more: Vec<ConnectionRecord> = (0..21).map(|i| plain(i as u16, i as u128)).collect();
    let page = query_report(&one_more, &SearchCriteria::default(), SortMode::MostBytes, 2);
    assert_eq!(page.total_pages, 2);
    assert_eq!(page.rows.len(), 1);
}
