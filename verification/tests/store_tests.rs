use rust_decimal::Decimal;
use yummy_indexing::models::{AutoSearchKeyword, StoreAutoComplete, StoreResult, SubwayInfo};
use yummy_indexing::query::{QueryServicePub, StorePage};
use yummy_indexing::error::IndexingError;
use chrono::NaiveDate;

fn row(seq: i32, name: &str, recommend: Option<&str>, icon: Option<&str>) -> StoreResult {
    StoreResult {
        seq,
        name: name.to_string(),
        store_type: Some("korean".to_string()),
        address: Some("Seoul".to_string()),
        road_address: None,
        lat: Decimal::new(375665000, 7),
        lng: Decimal::new(1269780000, 7),
        zero_possible: seq % 2 == 0,
        recommend_name: recommend.map(|r| r.to_string()),
        tel: None,
        url: Some("https://example.com".to_string()),
        category_group_name: "food".to_string(),
        category_group_code: "FD6".to_string(),
        category_name: "restaurant".to_string(),
        category_icon: icon.map(|i| i.to_string()),
        avg_rating_bits: Some(4.5f64.to_bits()),
        review_count: Some(12),
    }
}

#[test]
fn distinct_store_table_merges_recommendations() {
    let service = QueryServicePub::new();
    let rows = vec![
        row(7, "A", Some("r1"), Some("icon")),
        row(3, "B", None, None),
        row(7, "A", Some("r2"), Some("icon")),
        row(7, "A", None, Some("icon")),
        row(3, "B", Some("r3"), None),
    ];
    let ts = "2025-07-07T00:00:00Z".to_string();
    let docs = service.distinct_store_table(&rows, &ts).unwrap();
    assert_eq!(docs.len(), 2);
    assert_eq!(docs[0].seq, 7);
    assert_eq!(docs[0].recommend_names, vec!["r1".to_string(), "r2".to_string()]);
    assert_eq!(docs[0].category_icon, Some("icon".to_string()));
    assert_eq!(docs[0].timestamp, ts);
    assert_eq!(docs[1].seq, 3);
    assert_eq!(docs[1].name, "B");
    assert_eq!(docs[1].recommend_names, vec!["r3".to_string()]);
    assert_eq!(docs[1].category_icon, Some(String::new()));
    assert_eq!(docs[1].lat, Decimal::new(375665000, 7));
    assert_eq!(docs[1].avg_rating_bits, Some(4.5f64.to_bits()));
    assert_eq!(docs[1].review_count, Some(12));
}

#[test]
fn distinct_store_table_of_empty_rows() {
    let service = QueryServicePub::new();
    let docs = service.distinct_store_table(&[], &"t".to_string()).unwrap();
    assert!(docs.is_empty());
}

#[test]
fn distinct_store_table_of_unique_rows_keeps_order() {
    let service = QueryServicePub::new();
    let rows = vec![row(5, "x", None, None), row(1, "y", Some("r"), None), row(9, "z", None, Some("i"))];
    let docs = service.distinct_store_table(&rows, &"t".to_string()).unwrap();
    let seqs: Vec<i32> = docs.iter().map(|d| d.seq).collect();
    assert_eq!(seqs, vec![5, 1, 9]);
}

#[test]
fn absorb_store_batch_last_page_ends_reading() {
    let service = QueryServicePub::new();
    let mut total = vec![row(1, "a", None, None)];
    let next = service.absorb_store_batch(&mut total, vec![row(4, "b", None, None), row(6, "c", None, None)], 3, 3);
    assert_eq!(next, StorePage::Done);
    assert_eq!(total.len(), 3);
    let stop = service.absorb_store_batch(&mut total, vec![], 3, 3);
    assert_eq!(stop, StorePage::Done);
    assert_eq!(total.len(), 3);
}

#[test]
fn absorb_store_batch_full_page_holds_back_last_store() {
    let service = QueryServicePub::new();
    let mut total = Vec::new();
    let page = vec![
        row(2, "a", Some("r1"), None),
        row(4, "b", Some("r2"), None),
        row(5, "c", Some("r3"), None),
        row(5, "c", Some("r4"), None),
    ];
    let next = service.absorb_store_batch(&mut total, page, 4, 4);
    assert_eq!(next, StorePage::Next { from: 5, limit: 6 });
    let seqs: Vec<i32> = total.iter().map(|r| r.seq).collect();
    assert_eq!(seqs, vec![2, 4]);
}

#[test]
fn absorb_store_batch_full_page_of_one_store_raises_limit() {
    let service = QueryServicePub::new();
    let mut total = vec![row(1, "a", None, None)];
    let page = vec![row(7, "g", Some("r1"), None), row(7, "g", Some("r2"), None)];
    let next = service.absorb_store_batch(&mut total, page, 2, 2);
    assert_eq!(next, StorePage::Next { from: 7, limit: 4 });
    assert_eq!(total.len(), 1);
}

/// Reads `specs` (ordered by store) the way the store query does, counting the queries.
fn read_all(specs: &[(i32, &str, Option<&str>)], batch_size: usize) -> (Vec<StoreResult>, usize) {
    let service = QueryServicePub::new();
    let mut total = Vec::new();
    let mut from: Option<i32> = None;
    let mut limit: usize = batch_size;
    let mut queries: usize = 0;
    loop {
        queries += 1;
        let page: Vec<StoreResult> = specs
            .iter()
            .filter(|(seq, _, _)| from.map_or(true, |f| *seq >= f))
            .take(limit)
            .map(|(seq, name, rec)| row(*seq, name, *rec, None))
            .collect();
        match service.absorb_store_batch(&mut total, page, limit, batch_size) {
            StorePage::Done => break,
            StorePage::Next { from: f, limit: l } => {
                from = Some(f);
                limit = l;
            }
        }
    }
    (total, queries)
}

#[test]
fn absorb_store_batch_keeps_every_row_of_a_store_across_pages() {
    let specs: Vec<(i32, &str, Option<&str>)> = vec![
        (1, "a", Some("x")),
        (1, "a", Some("y")),
        (2, "b", Some("z")),
        (2, "b", Some("w")),
        (2, "b", Some("v")),
        (3, "c", None),
    ];
    let (total, queries) = read_all(&specs, 3);
    let expected: Vec<StoreResult> = specs.iter().map(|(seq, name, rec)| row(*seq, name, *rec, None)).collect();
    assert_eq!(total, expected);
    assert!(queries <= specs.len() / 3 + 1);
    let docs = QueryServicePub::new().distinct_store_table(&total, &"t".to_string()).unwrap();
    assert_eq!(docs[1].recommend_names, vec!["z".to_string(), "w".to_string(), "v".to_string()]);
}

#[test]
fn absorb_store_batch_one_row_stores_take_few_queries() {
    let specs: Vec<(i32, &str, Option<&str>)> = vec![(1, "a", None), (2, "b", None), (3, "c", None), (4, "d", None)];
    let (total, queries) = read_all(&specs, 2);
    assert_eq!(total.iter().map(|r| r.seq).collect::<Vec<i32>>(), vec![1, 2, 3, 4]);
    assert_eq!(queries, 3);
}

#[test]
fn absorb_store_batch_with_zero_limit_takes_the_page() {
    let service = QueryServicePub::new();
    let mut total = Vec::new();
    let next = service.absorb_store_batch(&mut total, vec![row(3, "c", None, None)], 0, 0);
    assert_eq!(next, StorePage::Done);
    assert_eq!(total.len(), 1);
}

#[test]
fn get_distinct_store_table_stamps_utc_time() {
    let service = QueryServicePub::new();
    let at = NaiveDate::from_ymd_opt(2024, 1, 2).unwrap().and_hms_opt(3, 4, 5).unwrap();
    let docs = service.get_distinct_store_table(&[row(1, "a", None, None)], at).unwrap();
    assert_eq!(docs.len(), 1);
    assert_eq!(docs[0].timestamp, "2024-01-02T03:04:05Z");
}

#[test]
fn distinct_store_table_of_concatenated_lists() {
    let service = QueryServicePub::new();
    let a = || vec![row(1, "a", Some("x"), None), row(2, "b", None, None), row(1, "a", Some("y"), None)];
    let b = || vec![row(5, "e", Some("z"), None), row(4, "d", None, None), row(5, "e", Some("w"), None)];
    let u = service.distinct_store_table(&a(), &"t".to_string()).unwrap();
    let w = service.distinct_store_table(&b(), &"t".to_string()).unwrap();
    let mut ab: Vec<StoreResult> = a();
    ab.extend(b());
    let z = service.distinct_store_table(&ab, &"t".to_string()).unwrap();
    let mut uw = u;
    uw.extend(w);
    assert_eq!(z, uw);
}

#[test]
fn recent_index_datetime_reads_document_time() {
    let service = yummy_indexing::elastic::EsQueryServicePub::new();
    let at = NaiveDate::from_ymd_opt(2024, 1, 2).unwrap().and_hms_opt(3, 4, 5).unwrap();
    assert_eq!(service.recent_index_datetime_of(Some("2024-01-02T03:04:05Z".to_string())), Ok(at));
    assert_eq!(service.recent_index_datetime_of(None), Err(IndexingError::NoIndexedTime));
    assert_eq!(
        service.recent_index_datetime_of(Some("yesterday".to_string())),
        Err(IndexingError::InvalidIndexTime("yesterday".to_string()))
    );
}

#[test]
fn store_name_paging_reads_every_name() {
    let service = QueryServicePub::new();
    let all: Vec<(i32, &str)> = vec![(1, "a"), (3, "b"), (4, "c"), (8, "d"), (9, "e")];
    let mut total: Vec<StoreAutoComplete> = Vec::new();
    let mut after: Option<i32> = None;
    let mut queries: usize = 0;
    loop {
        queries += 1;
        let page: Vec<StoreAutoComplete> = all
            .iter()
            .filter(|(seq, _)| after.map_or(true, |a| *seq > a))
            .take(2)
            .map(|(seq, name)| StoreAutoComplete { seq: *seq, name: name.to_string() })
            .collect();
        match service.absorb_store_name_batch(&mut total, page) {
            Some(seq) => after = Some(seq),
            None => break,
        }
    }
    assert_eq!(total.iter().map(|n| n.seq).collect::<Vec<i32>>(), vec![1, 3, 4, 8, 9]);
    assert_eq!(queries, 4);
}
