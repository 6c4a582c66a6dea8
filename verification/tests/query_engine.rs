use ytm::pagination::Pagination;
use ytm::schema::{Metadata, MetadataFilter, Order};
use ytm::table::MetadataTable;
use ytm::v1::Schema;

fn record(id: &str, title: &str, time: i64) -> Schema {
    Schema {
        id: id.to_string(),
        title: title.to_string(),
        time,
        channel: ytm::schema::Channel { id: "chan1".to_string(), name: "Channel One".to_string() },
    }
}

fn no_filter() -> MetadataFilter {
    MetadataFilter::from_parts(None, None, None, None, None, None, None, None)
}

fn ids(items: &Vec<Metadata>) -> Vec<String> {
    let mut out = Vec::new();
    let mut i = 0;
    while i < items.len() {
        out.push(items[i].id.clone());
        i += 1;
    }
    out
}

#[test]
fn aggregates_example_scenario() {
    let t1 = 100;
    let t2 = 200;
    let t3 = 150;
    let records = vec![
        record("abc12345678", "First", t1),
        record("abc12345678", "First", t2),
        record("xyz98765432", "Second", t3),
    ];
    let table = MetadataTable::build(records);
    assert_eq!(table.total_count_raw(), 3);
    assert_eq!(table.total_count(), 2);
    assert_eq!(table.watch_timeline(), vec![100, 150, 200]);

    let (_, items) = table.get_collection(&no_filter());
    assert_eq!(items.len(), 2);
    // Latest: descending by earliest watch time, so "xyz..." (150) first.
    assert_eq!(items[0].id, "xyz98765432");
    assert_eq!(items[1].id, "abc12345678");
    assert_eq!(items[1].watch_count, 2);
    assert_eq!(items[1].watched_at, t1);
    assert_eq!(items[1].watch_timeline, vec![t1, t2]);
}

#[test]
fn dedup_keeps_first_seen_title_and_earliest_time() {
    let records = vec![
        record("aaaaaaaaaaa", "Original", 500),
        record("aaaaaaaaaaa", "Renamed", 100),
    ];
    let table = MetadataTable::build(records);
    assert_eq!(table.total_count(), 1);
    let (_, items) = table.get_collection(&no_filter());
    assert_eq!(items[0].title, "Original");
    assert_eq!(items[0].watched_at, 100);
    assert_eq!(items[0].watch_count, 2);
    assert_eq!(items[0].watch_timeline, vec![100, 500]);
}

#[test]
fn empty_input_gives_empty_table() {
    let table = MetadataTable::build(Vec::new());
    assert_eq!(table.total_count_raw(), 0);
    assert_eq!(table.total_count(), 0);
    assert_eq!(table.watch_timeline(), Vec::<i64>::new());
    let (pagination, items) = table.get_collection(&no_filter());
    assert_eq!(items.len(), 0);
    assert_eq!(pagination.total_page, 0);
}

/// Table order is [A(300), C(200), B(100)] descending by earliest time.
/// A and C both have two watches, B one.
fn counted_table() -> MetadataTable {
    let records = vec![
        record("bbbbbbbbbbb", "B", 100),
        record("ccccccccccc", "C", 200),
        record("aaaaaaaaaaa", "A", 300),
        record("aaaaaaaaaaa", "A", 350),
        record("ccccccccccc", "C", 250),
    ];
    MetadataTable::build(records)
}

#[test]
fn order_latest_and_oldest() {
    let table = counted_table();
    let (_, latest) = table.get_collection(&no_filter());
    assert_eq!(ids(&latest), vec!["aaaaaaaaaaa", "ccccccccccc", "bbbbbbbbbbb"]);

    let mut filter = no_filter();
    filter.order = Order::Oldest;
    let (_, oldest) = table.get_collection(&filter);
    assert_eq!(ids(&oldest), vec!["bbbbbbbbbbb", "ccccccccccc", "aaaaaaaaaaa"]);
}

#[test]
fn order_by_watch_count_keeps_stable_ties() {
    let table = counted_table();
    // Table order [A, C, B]; counts A=2, C=2, B=1.
    let mut filter = no_filter();
    filter.order = Order::LeastWatched;
    let (_, least) = table.get_collection(&filter);
    // Stable ascending sort by count: [B, A, C].
    assert_eq!(ids(&least), vec!["bbbbbbbbbbb", "aaaaaaaaaaa", "ccccccccccc"]);

    filter.order = Order::MostWatched;
    let (_, most) = table.get_collection(&filter);
    // Stable ascending sort then reversal: [C, A, B].
    assert_eq!(ids(&most), vec!["ccccccccccc", "aaaaaaaaaaa", "bbbbbbbbbbb"]);
}

#[test]
fn filter_by_exact_id() {
    let table = counted_table();
    let mut filter = no_filter();
    filter.id = Some("ccccccccccc".to_string());
    let (_, items) = table.get_collection(&filter);
    assert_eq!(ids(&items), vec!["ccccccccccc"]);

    filter.id = Some("cccccccccc".to_string());
    let (_, none) = table.get_collection(&filter);
    assert_eq!(none.len(), 0);
}

#[test]
fn filter_title_is_case_insensitive_substring() {
    let records = vec![
        record("aaaaaaaaaaa", "Learning Rust Today", 100),
        record("bbbbbbbbbbb", "Cooking Show", 200),
    ];
    let table = MetadataTable::build(records);
    let mut filter = no_filter();
    filter.title = Some("RUST".to_string());
    let (_, items) = table.get_collection(&filter);
    assert_eq!(ids(&items), vec!["aaaaaaaaaaa"]);

    filter.title = Some("rust tomorrow".to_string());
    let (_, none) = table.get_collection(&filter);
    assert_eq!(none.len(), 0);
}

#[test]
fn filter_channel_name_is_case_insensitive_substring() {
    let mut a = record("aaaaaaaaaaa", "A", 100);
    a.channel.name = "The Great Channel".to_string();
    let mut b = record("bbbbbbbbbbb", "B", 200);
    b.channel.name = "Other".to_string();
    let table = MetadataTable::build(vec![a, b]);
    let mut filter = no_filter();
    filter.channel_name = Some("great".to_string());
    let (_, items) = table.get_collection(&filter);
    assert_eq!(ids(&items), vec!["aaaaaaaaaaa"]);
}

#[test]
fn from_and_to_bounds_are_exclusive() {
    let table = counted_table();
    // Earliest times: A=300, C=200, B=100.
    let mut filter = no_filter();
    filter.from = Some(100);
    let (_, after) = table.get_collection(&filter);
    // Strictly greater than 100: B (exactly 100) is excluded.
    assert_eq!(ids(&after), vec!["aaaaaaaaaaa", "ccccccccccc"]);

    let mut filter = no_filter();
    filter.to = Some(200);
    let (_, before) = table.get_collection(&filter);
    // Strictly less than 200: C (exactly 200) is excluded.
    assert_eq!(ids(&before), vec!["bbbbbbbbbbb"]);

    let mut filter = no_filter();
    filter.from = Some(100);
    filter.to = Some(300);
    let (_, both) = table.get_collection(&filter);
    assert_eq!(ids(&both), vec!["ccccccccccc"]);
}

#[test]
fn adding_a_filter_never_grows_the_result() {
    let table = counted_table();
    let base = no_filter();
    let (_, all) = table.get_collection(&base);
    let mut narrowed = no_filter();
    narrowed.from = Some(100);
    let (_, fewer) = table.get_collection(&narrowed);
    assert!(fewer.len() <= all.len());
    let mut more = no_filter();
    more.from = Some(100);
    more.title = Some("A".to_string());
    let (_, fewest) = table.get_collection(&more);
    assert!(fewest.len() <= fewer.len());
}

#[test]
fn pagination_windows_partition_results() {
    let table = counted_table();
    let mut filter = no_filter();
    filter.limit = 2;
    filter.page = 1;
    let (pagination, first) = table.get_collection(&filter);
    assert_eq!(pagination.total_page, 2);
    assert_eq!(pagination.prev_page, None);
    assert_eq!(pagination.next_page, Some(2));
    assert_eq!(ids(&first), vec!["aaaaaaaaaaa", "ccccccccccc"]);

    filter.page = 2;
    let (pagination, second) = table.get_collection(&filter);
    assert_eq!(pagination.prev_page, Some(1));
    assert_eq!(pagination.next_page, None);
    assert_eq!(ids(&second), vec!["bbbbbbbbbbb"]);
}

#[test]
fn page_past_the_data_snaps_to_last_partial_page() {
    let table = counted_table();
    let mut filter = no_filter();
    filter.limit = 2;
    filter.page = 5;
    let (_, window) = table.get_collection(&filter);
    // Three records, limit two: the trailing partial page holds one.
    assert_eq!(ids(&window), vec!["bbbbbbbbbbb"]);
}

#[test]
fn page_past_data_with_exact_multiple_gives_empty_window() {
    let records = vec![
        record("aaaaaaaaaaa", "A", 100),
        record("bbbbbbbbbbb", "B", 200),
    ];
    let table = MetadataTable::build(records);
    let mut filter = no_filter();
    filter.limit = 2;
    filter.page = 2;
    let (pagination, window) = table.get_collection(&filter);
    // Two records exactly fill page one; the snap formula leaves an
    // empty trailing window for page two.
    assert_eq!(pagination.total_page, 1);
    assert_eq!(window.len(), 0);
}

#[test]
fn filter_defaults() {
    let f = no_filter();
    assert_eq!(f.page, 1);
    assert_eq!(f.limit, 20);
    assert!(f.order == Order::Latest);
    assert!(f.skip());
    let g = MetadataFilter::from_parts(
        Some("x".to_string()),
        None,
        None,
        None,
        None,
        Some(Order::Oldest),
        Some(3),
        Some(50),
    );
    assert_eq!(g.page, 3);
    assert_eq!(g.limit, 50);
    assert!(g.order == Order::Oldest);
    assert!(!g.skip());
}

#[test]
fn pagination_window_spans_all_pages_when_few() {
    let p = Pagination::new(2, 4, 10);
    assert_eq!(p.page_range, vec![1, 2, 3, 4]);
    assert_eq!(p.prev_page, Some(1));
    assert_eq!(p.next_page, Some(3));
    assert_eq!(p.total_page, 4);
    assert_eq!(p.limit, 10);
}

#[test]
fn pagination_window_is_five_wide_and_shifts() {
    let left_edge = Pagination::new(1, 10, 10);
    assert_eq!(left_edge.page_range, vec![1, 2, 3, 4, 5]);
    let middle = Pagination::new(6, 10, 10);
    assert_eq!(middle.page_range, vec![4, 5, 6, 7, 8]);
    let right_edge = Pagination::new(10, 10, 10);
    assert_eq!(right_edge.page_range, vec![6, 7, 8, 9, 10]);
    assert_eq!(right_edge.next_page, None);
}

#[test]
fn pagination_of_no_pages_is_empty() {
    let p = Pagination::new(1, 0, 20);
    assert_eq!(p.page_range, Vec::<usize>::new());
    assert_eq!(p.prev_page, None);
    assert_eq!(p.next_page, None);
}
