//! Merging joined store rows into one document per store.
use vstd::prelude::*;
use std::collections::HashMap;
use crate::models::{StoreResult, DistinctStoreResult, StoreAutoComplete, AutoSearchKeyword};
use chrono::NaiveDateTime;
use crate::error::IndexingError;

verus! {

broadcast use vstd::std_specs::hash::group_hash_axioms;

/// Position of the first row of store `k`, or -1 when no row belongs to it.
pub open spec fn first_index_of(stores: Seq<StoreResult>, k: i32) -> int
    decreases stores.len(),
{
    if stores.len() == 0 {
        -1
    } else {
        let f = first_index_of(stores.drop_last(), k);
        if f >= 0 {
            f
        } else if stores.last().seq == k {
            stores.len() - 1
        } else {
            -1
        }
    }
}

/// The store numbers of the rows, each once, in the order in which they first occur.
pub open spec fn distinct_seqs(stores: Seq<StoreResult>) -> Seq<i32>
    decreases stores.len(),
{
    if stores.len() == 0 {
        Seq::empty()
    } else {
        let d = distinct_seqs(stores.drop_last());
        if d.contains(stores.last().seq) {
            d
        } else {
            d.push(stores.last().seq)
        }
    }
}

/// The recommendations of store `k`: those of its rows that carry one, in row order.
pub open spec fn recommends_of(stores: Seq<StoreResult>, k: i32) -> Seq<String>
    decreases stores.len(),
{
    if stores.len() == 0 {
        Seq::empty()
    } else {
        let r = recommends_of(stores.drop_last(), k);
        let last = stores.last();
        if last.seq == k && last.recommend_name is Some {
            r.push(last.recommend_name->0)
        } else {
            r
        }
    }
}

/// The text of an optional icon name, empty when there is none.
pub open spec fn icon_or_empty(icon: Option<String>) -> Seq<char> {
    match icon {
        Some(s) => s@,
        None => Seq::empty(),
    }
}

/// `rec` is the document of store `k` built from `stores` at time `ts`: the fields of the
/// store's first row, all its recommendations, and an icon name that is never missing.
pub open spec fn is_merged_document(
    rec: DistinctStoreResult,
    stores: Seq<StoreResult>,
    ts: Seq<char>,
    k: i32,
) -> bool {
    let row = stores[first_index_of(stores, k)];
    &&& rec.timestamp@ == ts
    &&& rec.seq == k
    &&& rec.name == row.name
    &&& rec.store_type == row.store_type
    &&& rec.address == row.address
    &&& rec.road_address == row.road_address
    &&& rec.lat == row.lat
    &&& rec.lng == row.lng
    &&& rec.zero_possible == row.zero_possible
    &&& rec.recommend_names@ == recommends_of(stores, k)
    &&& rec.tel == row.tel
    &&& rec.url == row.url
    &&& rec.category_group_name == row.category_group_name
    &&& rec.category_group_code == row.category_group_code
    &&& rec.category_name == row.category_name
    &&& rec.category_icon is Some
    &&& rec.category_icon->0@ == icon_or_empty(row.category_icon)
    &&& rec.avg_rating_bits == row.avg_rating_bits
    &&& rec.review_count == row.review_count
}

/// `docs` holds exactly one merged document per store of `stores`, in first-occurrence order.
pub open spec fn is_distinct_table(
    docs: Seq<DistinctStoreResult>,
    stores: Seq<StoreResult>,
    ts: Seq<char>,
) -> bool {
    &&& docs.len() == distinct_seqs(stores).len()
    &&& forall|i: int|
        0 <= i < docs.len() ==> is_merged_document(
            #[trigger] docs[i],
            stores,
            ts,
            distinct_seqs(stores)[i],
        )
}

/// A store occurs in the rows exactly when it has a first row, and that row is its own.
pub proof fn lemma_first_index(stores: Seq<StoreResult>, k: i32)
    ensures
        distinct_seqs(stores).contains(k) <==> first_index_of(stores, k) >= 0,
        first_index_of(stores, k) >= 0 ==> first_index_of(stores, k) < stores.len()
            && stores[first_index_of(stores, k)].seq == k,
        first_index_of(stores, k) < 0 ==> recommends_of(stores, k).len() == 0,
        first_index_of(stores, k) < 0 ==> forall|i: int| 0 <= i < stores.len() ==> #[trigger] stores[i].seq != k,
    decreases stores.len(),
{
    if stores.len() > 0 {
        let p = stores.drop_last();
        lemma_first_index(p, k);
        let d = distinct_seqs(p);
        let x = stores.last().seq;
        if !d.contains(x) {
            assert(d.push(x)[d.len() as int] == x);
            if d.push(x).contains(k) && k != x {
                let w = choose|w: int| 0 <= w < d.push(x).len() && d.push(x)[w] == k;
                assert(d[w] == k);
            }
            if d.contains(k) {
                let w = choose|w: int| 0 <= w < d.len() && d[w] == k;
                assert(d.push(x)[w] == k);
            }
        }
        if first_index_of(p, k) < 0 {
            assert forall|i: int| 0 <= i < p.len() implies #[trigger] stores[i].seq != k by {
                assert(stores[i] == p[i]);
            }
        }
        if first_index_of(p, k) >= 0 {
            assert(stores[first_index_of(p, k)] == p[first_index_of(p, k)]);
        }
    }
}

/// The store numbers of `distinct_seqs` are pairwise different.
pub proof fn lemma_distinct_seqs_unique(stores: Seq<StoreResult>)
    ensures
        distinct_seqs(stores).no_duplicates(),
    decreases stores.len(),
{
    if stores.len() > 0 {
        lemma_distinct_seqs_unique(stores.drop_last());
    }
}


/// No two documents of a merged table are for the same store.
pub proof fn lemma_distinct_table_unique(
    docs: Seq<DistinctStoreResult>,
    stores: Seq<StoreResult>,
    ts: Seq<char>,
)
    requires
        is_distinct_table(docs, stores, ts),
    ensures
        forall|i: int, j: int|
            0 <= i < docs.len() && 0 <= j < docs.len() && i != j ==> #[trigger] docs[i].seq
                != #[trigger] docs[j].seq,
{
    lemma_distinct_seqs_unique(stores);
    assert forall|i: int, j: int|
        0 <= i < docs.len() && 0 <= j < docs.len() && i != j implies #[trigger] docs[i].seq
            != #[trigger] docs[j].seq by {
        assert(docs[i].seq == distinct_seqs(stores)[i]);
        assert(docs[j].seq == distinct_seqs(stores)[j]);
    }
}

/// A merged table has a document for every store that has a row, and no other document.
pub proof fn lemma_distinct_table_covers(
    docs: Seq<DistinctStoreResult>,
    stores: Seq<StoreResult>,
    ts: Seq<char>,
)
    requires
        is_distinct_table(docs, stores, ts),
    ensures
        forall|i: int|
            0 <= i < stores.len() ==> exists|j: int|
                0 <= j < docs.len() && #[trigger] docs[j].seq == #[trigger] stores[i].seq,
        forall|j: int|
            0 <= j < docs.len() ==> exists|i: int|
                0 <= i < stores.len() && #[trigger] stores[i].seq == #[trigger] docs[j].seq,
{
    assert forall|i: int| 0 <= i < stores.len() implies exists|j: int|
        0 <= j < docs.len() && #[trigger] docs[j].seq == #[trigger] stores[i].seq by {
        let k = stores[i].seq;
        lemma_first_index(stores, k);
        let w = choose|w: int| 0 <= w < distinct_seqs(stores).len() && distinct_seqs(stores)[w] == k;
        assert(docs[w].seq == k);
    }
    assert forall|j: int| 0 <= j < docs.len() implies exists|i: int|
        0 <= i < stores.len() && #[trigger] stores[i].seq == #[trigger] docs[j].seq by {
        let k = distinct_seqs(stores)[j];
        assert(distinct_seqs(stores).contains(k));
        lemma_first_index(stores, k);
        assert(stores[first_index_of(stores, k)].seq == docs[j].seq);
    }
}

/// The store numbers of rows that are already one per store, in row order.
pub proof fn lemma_distinct_seqs_of_unique_rows(stores: Seq<StoreResult>)
    requires
        forall|i: int, j: int|
            0 <= i < stores.len() && 0 <= j < stores.len() && i != j ==> #[trigger] stores[i].seq
                != #[trigger] stores[j].seq,
    ensures
        distinct_seqs(stores) == stores.map_values(|r: StoreResult| r.seq),
    decreases stores.len(),
{
    if stores.len() > 0 {
        let p = stores.drop_last();
        assert forall|i: int, j: int|
            0 <= i < p.len() && 0 <= j < p.len() && i != j implies #[trigger] p[i].seq
                != #[trigger] p[j].seq by {
            assert(p[i] == stores[i] && p[j] == stores[j]);
        }
        lemma_distinct_seqs_of_unique_rows(p);
        let x = stores.last().seq;
        if distinct_seqs(p).contains(x) {
            let w = choose|w: int| 0 <= w < distinct_seqs(p).len() && distinct_seqs(p)[w] == x;
            assert(p[w].seq == x);
            assert(stores[w].seq == stores[stores.len() - 1].seq);
        }
        assert(distinct_seqs(stores) == stores.map_values(|r: StoreResult| r.seq));
    }
}

/// Rows that are already one per store give one document per row, in the same order.
pub proof fn lemma_distinct_table_of_unique_rows(
    docs: Seq<DistinctStoreResult>,
    stores: Seq<StoreResult>,
    ts: Seq<char>,
)
    requires
        is_distinct_table(docs, stores, ts),
        forall|i: int, j: int|
            0 <= i < stores.len() && 0 <= j < stores.len() && i != j ==> #[trigger] stores[i].seq
                != #[trigger] stores[j].seq,
    ensures
        docs.len() == stores.len(),
        forall|i: int| 0 <= i < docs.len() ==> #[trigger] docs[i].seq == stores[i].seq,
{
    lemma_distinct_seqs_of_unique_rows(stores);
    assert forall|i: int| 0 <= i < docs.len() implies #[trigger] docs[i].seq == stores[i].seq by {
        assert(distinct_seqs(stores)[i] == stores[i].seq);
    }
}


/// The first row of a store in two lists read one after the other: its first row in the
/// first list, else its first row in the second.
pub proof fn lemma_first_index_concat(a: Seq<StoreResult>, b: Seq<StoreResult>, k: i32)
    ensures
        first_index_of(a + b, k) == if first_index_of(a, k) >= 0 {
            first_index_of(a, k)
        } else if first_index_of(b, k) >= 0 {
            a.len() + first_index_of(b, k)
        } else {
            -1
        },
    decreases b.len(),
{
    if b.len() == 0 {
        assert(a + b == a);
    } else {
        let p = b.drop_last();
        lemma_first_index_concat(a, p, k);
        assert((a + b).drop_last() == a + p);
        assert((a + b).last() == b.last());
    }
}

/// The recommendations of a store in two lists read one after the other: those of the
/// first list, then those of the second.
pub proof fn lemma_recommends_concat(a: Seq<StoreResult>, b: Seq<StoreResult>, k: i32)
    ensures
        recommends_of(a + b, k) == recommends_of(a, k) + recommends_of(b, k),
    decreases b.len(),
{
    if b.len() == 0 {
        assert(a + b == a);
        assert(recommends_of(a, k) + recommends_of(b, k) == recommends_of(a, k));
    } else {
        let p = b.drop_last();
        lemma_recommends_concat(a, p, k);
        assert((a + b).drop_last() == a + p);
        assert((a + b).last() == b.last());
        assert(recommends_of(a, k) + recommends_of(p, k).push(b.last().recommend_name->0)
            == (recommends_of(a, k) + recommends_of(p, k)).push(b.last().recommend_name->0));
    }
}

/// The stores of two lists that share no store, read one after the other: those of the
/// first list, then those of the second.
pub proof fn lemma_distinct_seqs_concat(a: Seq<StoreResult>, b: Seq<StoreResult>)
    requires
        forall|i: int, j: int| 0 <= i < a.len() && 0 <= j < b.len() ==> #[trigger] a[i].seq != #[trigger] b[j].seq,
    ensures
        distinct_seqs(a + b) == distinct_seqs(a) + distinct_seqs(b),
    decreases b.len(),
{
    if b.len() == 0 {
        assert(a + b == a);
        assert(distinct_seqs(a) + distinct_seqs(b) == distinct_seqs(a));
    } else {
        let p = b.drop_last();
        let x = b.last().seq;
        assert forall|i: int, j: int| 0 <= i < a.len() && 0 <= j < p.len() implies #[trigger] a[i].seq
            != #[trigger] p[j].seq by {
            assert(p[j] == b[j]);
        }
        lemma_distinct_seqs_concat(a, p);
        assert((a + b).drop_last() == a + p);
        assert((a + b).last() == b.last());
        let da = distinct_seqs(a);
        let dp = distinct_seqs(p);
        assert(!da.contains(x)) by {
            lemma_first_index(a, x);
            if da.contains(x) {
                assert(a[first_index_of(a, x)].seq == b[b.len() - 1].seq);
            }
        }
        assert((da + dp).contains(x) <==> dp.contains(x)) by {
            if (da + dp).contains(x) {
                let w = choose|w: int| 0 <= w < (da + dp).len() && (da + dp)[w] == x;
                if w >= da.len() {
                    assert(dp[w - da.len()] == x);
                } else {
                    assert(da[w] == x);
                }
            }
            if dp.contains(x) {
                let w = choose|w: int| 0 <= w < dp.len() && dp[w] == x;
                assert((da + dp)[da.len() + w] == x);
            }
        }
        if !dp.contains(x) {
            assert((da + dp).push(x) == da + dp.push(x));
        }
    }
}

/// Merging two lists of rows that share no store, read one after the other, gives the
/// documents of the first list followed by those of the second.
pub proof fn lemma_distinct_table_concat(
    u: Seq<DistinctStoreResult>,
    a: Seq<StoreResult>,
    w: Seq<DistinctStoreResult>,
    b: Seq<StoreResult>,
    ts: Seq<char>,
)
    requires
        forall|i: int, j: int| 0 <= i < a.len() && 0 <= j < b.len() ==> #[trigger] a[i].seq != #[trigger] b[j].seq,
        is_distinct_table(u, a, ts),
        is_distinct_table(w, b, ts),
    ensures
        is_distinct_table(u + w, a + b, ts),
{
    lemma_distinct_seqs_concat(a, b);
    let da = distinct_seqs(a);
    let db = distinct_seqs(b);
    let z = u + w;
    assert forall|i: int| 0 <= i < z.len() implies is_merged_document(
        #[trigger] z[i],
        a + b,
        ts,
        distinct_seqs(a + b)[i],
    ) by {
        lemma_first_index_concat(a, b, distinct_seqs(a + b)[i]);
        lemma_recommends_concat(a, b, distinct_seqs(a + b)[i]);
        if i < u.len() {
            let k = da[i];
            assert(distinct_seqs(a + b)[i] == k);
            assert(z[i] == u[i]);
            assert(is_merged_document(u[i], a, ts, k));
            assert(da.contains(k));
            lemma_first_index(a, k);
            lemma_first_index(b, k);
            if first_index_of(b, k) >= 0 {
                assert(a[first_index_of(a, k)].seq == b[first_index_of(b, k)].seq);
            }
            assert(recommends_of(a, k) + recommends_of(b, k) == recommends_of(a, k));
            assert((a + b)[first_index_of(a, k)] == a[first_index_of(a, k)]);
        } else {
            let k = db[i - u.len()];
            assert(distinct_seqs(a + b)[i] == k);
            assert(z[i] == w[i - u.len()]);
            assert(is_merged_document(w[i - u.len()], b, ts, k));
            assert(db.contains(k));
            lemma_first_index(a, k);
            lemma_first_index(b, k);
            if first_index_of(a, k) >= 0 {
                assert(a[first_index_of(a, k)].seq == b[first_index_of(b, k)].seq);
            }
            assert(recommends_of(a, k) + recommends_of(b, k) == recommends_of(b, k));
            assert((a + b)[a.len() + first_index_of(b, k)] == b[first_index_of(b, k)]);
        }
    }
}

/// The number of rows that carry a recommendation.
pub open spec fn recommendation_count(stores: Seq<StoreResult>) -> nat
    decreases stores.len(),
{
    if stores.len() == 0 {
        0
    } else {
        recommendation_count(stores.drop_last()) + if stores.last().recommend_name is Some { 1nat } else { 0nat }
    }
}

/// The number of recommendations that the documents list.
pub open spec fn documents_recommendation_count(docs: Seq<DistinctStoreResult>) -> nat
    decreases docs.len(),
{
    if docs.len() == 0 {
        0
    } else {
        documents_recommendation_count(docs.drop_last()) + docs.last().recommend_names@.len()
    }
}

/// The number of recommendations of the stores `ks`.
pub open spec fn recommendations_of_stores(stores: Seq<StoreResult>, ks: Seq<i32>) -> nat
    decreases ks.len(),
{
    if ks.len() == 0 {
        0
    } else {
        recommendations_of_stores(stores, ks.drop_last()) + recommends_of(stores, ks.last()).len()
    }
}

proof fn lemma_recommendations_after_row(p: Seq<StoreResult>, r: StoreResult, ks: Seq<i32>)
    requires
        ks.no_duplicates(),
    ensures
        recommendations_of_stores(p.push(r), ks) == recommendations_of_stores(p, ks) + if ks.contains(r.seq)
            && r.recommend_name is Some { 1nat } else { 0nat },
    decreases ks.len(),
{
    let q = p.push(r);
    assert(q.drop_last() == p);
    if ks.len() > 0 {
        let rest = ks.drop_last();
        assert(rest.no_duplicates());
        lemma_recommendations_after_row(p, r, rest);
        if ks.last() == r.seq {
            assert(!rest.contains(r.seq)) by {
                if rest.contains(r.seq) {
                    let w = choose|w: int| 0 <= w < rest.len() && rest[w] == r.seq;
                    assert(ks[w] == ks[ks.len() - 1]);
                }
            }
        }
        if rest.contains(r.seq) {
            let w = choose|w: int| 0 <= w < rest.len() && rest[w] == r.seq;
            assert(ks[w] == r.seq);
        }
        if ks.contains(r.seq) && ks.last() != r.seq {
            let w = choose|w: int| 0 <= w < ks.len() && ks[w] == r.seq;
            assert(rest[w] == r.seq);
        }
    }
}

proof fn lemma_recommendations_of_distinct_seqs(stores: Seq<StoreResult>)
    ensures
        recommendations_of_stores(stores, distinct_seqs(stores)) == recommendation_count(stores),
    decreases stores.len(),
{
    if stores.len() > 0 {
        let p = stores.drop_last();
        let r = stores.last();
        assert(p.push(r) == stores);
        lemma_recommendations_of_distinct_seqs(p);
        lemma_distinct_seqs_unique(p);
        lemma_recommendations_after_row(p, r, distinct_seqs(p));
        if !distinct_seqs(p).contains(r.seq) {
            lemma_first_index(p, r.seq);
            let d = distinct_seqs(stores);
            assert(d.drop_last() == distinct_seqs(p));
            assert(!distinct_seqs(p).contains(r.seq));
        }
    }
}

proof fn lemma_documents_count_prefix(docs: Seq<DistinctStoreResult>, stores: Seq<StoreResult>, ts: Seq<char>, n: int)
    requires
        is_distinct_table(docs, stores, ts),
        0 <= n <= docs.len(),
    ensures
        documents_recommendation_count(docs.take(n)) == recommendations_of_stores(stores, distinct_seqs(stores).take(n)),
    decreases n,
{
    if n > 0 {
        lemma_documents_count_prefix(docs, stores, ts, n - 1);
        assert(docs.take(n).drop_last() == docs.take(n - 1));
        assert(distinct_seqs(stores).take(n).drop_last() == distinct_seqs(stores).take(n - 1));
        assert(is_merged_document(docs[n - 1], stores, ts, distinct_seqs(stores)[n - 1]));
    }
}

/// Merging neither loses nor repeats a recommendation: the documents list as many
/// recommendations as there are rows that carry one.
pub proof fn lemma_distinct_table_keeps_recommendations(
    docs: Seq<DistinctStoreResult>,
    stores: Seq<StoreResult>,
    ts: Seq<char>,
)
    requires
        is_distinct_table(docs, stores, ts),
    ensures
        documents_recommendation_count(docs) == recommendation_count(stores),
{
    lemma_documents_count_prefix(docs, stores, ts, docs.len() as int);
    assert(docs.take(docs.len() as int) == docs);
    assert(distinct_seqs(stores).take(docs.len() as int) == distinct_seqs(stores));
    lemma_recommendations_of_distinct_seqs(stores);
}

/// Where the trailing run of rows of store `k` starts: the position after the last row
/// that is not of store `k`, or 0 when every row is.
pub open spec fn run_start(rows: Seq<StoreResult>, k: i32) -> int
    decreases rows.len(),
{
    if rows.len() > 0 && rows.last().seq == k {
        run_start(rows.drop_last(), k)
    } else {
        rows.len() as int
    }
}

/// The rows from `run_start` on are of store `k`, and the row just before them is not.
pub proof fn lemma_run_start(rows: Seq<StoreResult>, k: i32)
    ensures
        0 <= run_start(rows, k) <= rows.len(),
        forall|i: int| run_start(rows, k) <= i < rows.len() ==> #[trigger] rows[i].seq == k,
        run_start(rows, k) > 0 ==> rows[run_start(rows, k) - 1].seq != k,
    decreases rows.len(),
{
    if rows.len() > 0 && rows.last().seq == k {
        let p = rows.drop_last();
        lemma_run_start(p, k);
        assert forall|i: int| run_start(rows, k) <= i < rows.len() implies #[trigger] rows[i].seq == k by {
            if i < rows.len() - 1 {
                assert(rows[i] == p[i]);
            }
        }
        if run_start(p, k) > 0 {
            assert(rows[run_start(p, k) - 1] == p[run_start(p, k) - 1]);
        }
    }
}

/// What to read after a page of store rows.
#[derive(Debug, Clone, Copy, PartialEq, Eq)]
pub enum StorePage {
    /// Every row has been read.
    Done,
    /// Read at most `limit` rows of the stores numbered `from` or more, in store order.
    Next { from: i32, limit: usize },
}

/// How many leading rows of a page, read with at most `limit` rows, are kept. A page that
/// is not full (`limit == 0` or fewer than `limit` rows) is kept whole. A full page is kept
/// up to the trailing run of rows of its last store, which the next page reads again in
/// full; where the next limit would not fit in a `usize`, the page is kept whole.
pub open spec fn kept_rows(page: Seq<StoreResult>, limit: usize, batch_size: usize) -> int {
    if page.len() == 0 || limit == 0 || page.len() < limit {
        page.len() as int
    } else if batch_size + (page.len() - run_start(page, page.last().seq)) <= usize::MAX {
        run_start(page, page.last().seq)
    } else {
        page.len() as int
    }
}

/// The page to read after a page read with at most `limit` rows. After a page that is not
/// full, none. After a full page whose last store is `k`, the stores from `k` on, with
/// `batch_size` more rows than the rows of `k` that were held back; where that limit would
/// not fit in a `usize`, the stores after `k` with `batch_size` rows (none after the
/// largest store number).
pub open spec fn next_page(page: Seq<StoreResult>, limit: usize, batch_size: usize) -> StorePage {
    if page.len() == 0 || limit == 0 || page.len() < limit {
        StorePage::Done
    } else {
        let k = page.last().seq;
        let held = page.len() - run_start(page, k);
        if batch_size + held <= usize::MAX {
            StorePage::Next { from: k, limit: (batch_size + held) as usize }
        } else if k == i32::MAX {
            StorePage::Done
        } else {
            StorePage::Next { from: (k + 1) as i32, limit: batch_size }
        }
    }
}

/// Rows ordered by store number, as the store query returns them.
pub open spec fn sorted_by_store(rows: Seq<StoreResult>) -> bool {
    forall|i: int, j: int| 0 <= i <= j < rows.len() ==> #[trigger] rows[i].seq <= #[trigger] rows[j].seq
}

/// Position of the first row whose store number is at least `k`; the length where none is.
pub open spec fn first_at_least(rows: Seq<StoreResult>, k: i32) -> int
    decreases rows.len(),
{
    if rows.len() == 0 || rows[0].seq >= k {
        0
    } else {
        1 + first_at_least(rows.drop_first(), k)
    }
}

/// The page that the store query returns from `rows`: at most `limit` rows of the stores
/// numbered `from` or more (of all stores where `None`), in order.
pub open spec fn page_from(rows: Seq<StoreResult>, from: Option<i32>, limit: usize) -> Seq<StoreResult> {
    let p = match from {
        Some(k) => first_at_least(rows, k),
        None => 0,
    };
    let e = if p + limit < rows.len() { p + limit } else { rows.len() as int };
    rows.subrange(p, e)
}

/// The rows collected by reading `rows` page by page from the page (`from`, `limit`), each
/// next page as `next_page` says, when the reading ends within `queries` queries.
pub open spec fn read_pages(
    rows: Seq<StoreResult>,
    batch_size: usize,
    from: Option<i32>,
    limit: usize,
    queries: nat,
) -> Option<Seq<StoreResult>>
    decreases queries,
{
    if queries == 0 {
        None
    } else {
        let page = page_from(rows, from, limit);
        let kept = page.take(kept_rows(page, limit, batch_size));
        match next_page(page, limit, batch_size) {
            StorePage::Done => Some(kept),
            StorePage::Next { from: f, limit: l } => match read_pages(rows, batch_size, Some(f), l, (queries - 1) as nat) {
                Some(rest) => Some(kept + rest),
                None => None,
            },
        }
    }
}

proof fn lemma_first_at_least(rows: Seq<StoreResult>, k: i32, p: int)
    requires
        0 <= p <= rows.len(),
        forall|i: int| 0 <= i < p ==> #[trigger] rows[i].seq < k,
        p < rows.len() ==> rows[p].seq >= k,
    ensures
        first_at_least(rows, k) == p,
    decreases rows.len(),
{
    if p > 0 {
        assert(rows[0].seq < k);
        let r = rows.drop_first();
        assert forall|i: int| 0 <= i < p - 1 implies #[trigger] r[i].seq < k by {
            assert(r[i] == rows[i + 1]);
        }
        if p - 1 < r.len() {
            assert(r[p - 1] == rows[p]);
        }
        lemma_first_at_least(r, k, p - 1);
    }
}

proof fn lemma_read_from(
    rows: Seq<StoreResult>,
    batch_size: usize,
    from: Option<i32>,
    limit: usize,
    queries: nat,
    pos: int,
    held: int,
)
    requires
        sorted_by_store(rows),
        batch_size > 0,
        rows.len() + batch_size <= usize::MAX,
        0 <= pos,
        0 <= held,
        pos + held <= rows.len(),
        limit == batch_size + held,
        from is None ==> pos == 0,
        from matches Some(k) ==> (forall|i: int| 0 <= i < pos ==> #[trigger] rows[i].seq < k)
            && (pos < rows.len() ==> rows[pos].seq >= k),
        rows.len() - (pos + held) < batch_size * queries,
    ensures
        read_pages(rows, batch_size, from, limit, queries) == Some(rows.subrange(pos, rows.len() as int)),
    decreases queries,
{
    let n = rows.len() as int;
    if queries == 0 {
        assert(batch_size * queries == 0) by (nonlinear_arith)
            requires
                queries == 0,
        ;
    }
    if let Some(k) = from {
        lemma_first_at_least(rows, k, pos);
    }
    let page = page_from(rows, from, limit);
    if pos + limit > n {
        assert(page == rows.subrange(pos, n));
        assert(page.take(page.len() as int) == page);
    } else {
        assert(page == rows.subrange(pos, pos + limit));
        let k2 = page.last().seq;
        assert(k2 == rows[pos + limit - 1].seq);
        lemma_run_start(page, k2);
        let m = run_start(page, k2);
        assert(m < page.len()) by {
            assert(page.drop_last().len() == page.len() - 1);
            lemma_run_start(page.drop_last(), k2);
        }
        let held2 = limit - m;
        assert(page.take(m) == rows.subrange(pos, pos + m));
        assert(page[m] == rows[pos + m]);
        assert forall|i: int| 0 <= i < pos + m implies #[trigger] rows[i].seq < k2 by {
            if i < pos {
                if let Some(k) = from {
                    assert(rows[i].seq < k);
                    assert(rows[pos].seq <= rows[pos + limit - 1].seq);
                }
            } else {
                assert(page[m - 1] == rows[pos + m - 1]);
                assert(rows[i].seq <= rows[pos + m - 1].seq);
                assert(rows[pos + m - 1].seq <= rows[pos + limit - 1].seq);
            }
        }
        assert(batch_size * queries - batch_size == batch_size * (queries - 1)) by (nonlinear_arith);
        lemma_read_from(rows, batch_size, Some(k2), (batch_size + held2) as usize, (queries - 1) as nat, pos + m, held2);
        assert(rows.subrange(pos, pos + m) + rows.subrange(pos + m, n) == rows.subrange(pos, n));
    }
}

/// Reading rows ordered by store number page by page, starting with `batch_size` rows of
/// all stores and going on as `next_page` says, collects every row exactly once and in
/// order, within `rows.len() / batch_size + 1` queries.
pub proof fn lemma_paging_reads_every_row(rows: Seq<StoreResult>, batch_size: usize)
    requires
        sorted_by_store(rows),
        batch_size > 0,
        rows.len() + batch_size <= usize::MAX,
    ensures
        read_pages(rows, batch_size, None, batch_size, rows.len() / (batch_size as nat) + 1) == Some(rows),
{
    let n = rows.len();
    let q = n / (batch_size as nat) + 1;
    assert(n < batch_size * q) by (nonlinear_arith)
        requires
            batch_size > 0,
            q == n / (batch_size as nat) + 1,
    ;
    lemma_read_from(rows, batch_size, None, batch_size, q, 0, 0);
    assert(rows.subrange(0, n as int) == rows);
}

/// Store names in strictly increasing store number, one per store, as the name query
/// returns them.
pub open spec fn strictly_by_store(names: Seq<StoreAutoComplete>) -> bool {
    forall|i: int, j: int| 0 <= i < j < names.len() ==> #[trigger] names[i].seq < #[trigger] names[j].seq
}

/// Position of the first name whose store number is above `k`; the length where none is.
pub open spec fn first_above(names: Seq<StoreAutoComplete>, k: i32) -> int
    decreases names.len(),
{
    if names.len() == 0 || names[0].seq > k {
        0
    } else {
        1 + first_above(names.drop_first(), k)
    }
}

/// The page that the name query returns: at most `batch_size` names of the stores after
/// `after` (of all stores where `None`), in order.
pub open spec fn name_page_after(names: Seq<StoreAutoComplete>, after: Option<i32>, batch_size: usize) -> Seq<StoreAutoComplete> {
    let p = match after {
        Some(k) => first_above(names, k),
        None => 0,
    };
    let e = if p + batch_size < names.len() { p + batch_size } else { names.len() as int };
    names.subrange(p, e)
}

/// The names collected by reading page by page after `after` as `absorb_store_name_batch`
/// says (every page kept, the next page after its last store, an empty page ending the
/// reading), when the reading ends within `queries` queries.
pub open spec fn read_name_pages(
    names: Seq<StoreAutoComplete>,
    batch_size: usize,
    after: Option<i32>,
    queries: nat,
) -> Option<Seq<StoreAutoComplete>>
    decreases queries,
{
    if queries == 0 {
        None
    } else {
        let page = name_page_after(names, after, batch_size);
        if page.len() == 0 {
            Some(page)
        } else {
            match read_name_pages(names, batch_size, Some(page.last().seq), (queries - 1) as nat) {
                Some(rest) => Some(page + rest),
                None => None,
            }
        }
    }
}

proof fn lemma_first_above(names: Seq<StoreAutoComplete>, k: i32, p: int)
    requires
        0 <= p <= names.len(),
        forall|i: int| 0 <= i < p ==> #[trigger] names[i].seq <= k,
        p < names.len() ==> names[p].seq > k,
    ensures
        first_above(names, k) == p,
    decreases names.len(),
{
    if p > 0 {
        let r = names.drop_first();
        assert(names[0].seq <= k);
        assert forall|i: int| 0 <= i < p - 1 implies #[trigger] r[i].seq <= k by {
            assert(r[i] == names[i + 1]);
        }
        if p - 1 < r.len() {
            assert(r[p - 1] == names[p]);
        }
        lemma_first_above(r, k, p - 1);
    }
}

proof fn lemma_read_names_from(
    names: Seq<StoreAutoComplete>,
    batch_size: usize,
    after: Option<i32>,
    queries: nat,
    pos: int,
)
    requires
        strictly_by_store(names),
        batch_size > 0,
        0 <= pos <= names.len(),
        after is None ==> pos == 0,
        after matches Some(k) ==> (forall|i: int| 0 <= i < pos ==> #[trigger] names[i].seq <= k)
            && (pos < names.len() ==> names[pos].seq > k),
        queries >= 1,
        names.len() - pos <= batch_size * (queries - 1),
    ensures
        read_name_pages(names, batch_size, after, queries) == Some(names.subrange(pos, names.len() as int)),
    decreases queries,
{
    let n = names.len() as int;
    if let Some(k) = after {
        lemma_first_above(names, k, pos);
    }
    let page = name_page_after(names, after, batch_size);
    let e = if pos + batch_size < n { pos + batch_size } else { n };
    assert(page == names.subrange(pos, e));
    if pos < n {
        assert(batch_size * (queries - 1) >= 1);
        assert(queries >= 2) by (nonlinear_arith)
            requires
                batch_size * (queries - 1) >= 1,
                queries >= 1,
        ;
        let k2 = page.last().seq;
        assert(k2 == names[e - 1].seq);
        assert forall|i: int| 0 <= i < e implies #[trigger] names[i].seq <= k2 by {
            if i < e - 1 {
                assert(names[i].seq < names[e - 1].seq);
            }
        }
        if e < n {
            assert(names[e - 1].seq < names[e].seq);
        }
        assert(batch_size * (queries - 1) - batch_size == batch_size * (queries - 2)) by (nonlinear_arith);
        lemma_read_names_from(names, batch_size, Some(k2), (queries - 1) as nat, e);
        assert(names.subrange(pos, e) + names.subrange(e, n) == names.subrange(pos, n));
    }
}

/// Reading store names that come one per store in increasing store number, page by page as
/// `absorb_store_name_batch` says, collects every name exactly once and in order, within
/// `ceil(names.len() / batch_size) + 1` queries (the last one empty).
pub proof fn lemma_name_paging_reads_every_name(names: Seq<StoreAutoComplete>, batch_size: usize)
    requires
        strictly_by_store(names),
        batch_size > 0,
    ensures
        read_name_pages(
            names,
            batch_size,
            None,
            ((names.len() + batch_size - 1) / (batch_size as int) + 1) as nat,
        ) == Some(names),
{
    let n = names.len();
    let q: nat = ((n + batch_size - 1) / (batch_size as int) + 1) as nat;
    assert(n <= batch_size * (q - 1)) by (nonlinear_arith)
        requires
            batch_size > 0,
            q == (n + batch_size - 1) / (batch_size as int) + 1,
    ;
    lemma_read_names_from(names, batch_size, None, q, 0);
    assert(names.subrange(0, n as int) == names);
}

/// What chrono's `NaiveDateTime::format` with the pattern "%Y-%m-%dT%H:%M:%SZ" writes for a
/// time.
pub uninterp spec fn utc_time_text_of(dt: NaiveDateTime) -> Seq<char>;

/// Writes a UTC time as store documents carry it: year, month and day joined by hyphens,
/// `T`, hour, minute and second joined by colons, each zero-padded, then `Z`, by chrono's
/// `NaiveDateTime::format("%Y-%m-%dT%H:%M:%SZ")` and `to_string`. Claimed, not proved: the
/// text is `utc_time_text_of(dt)`, a name for chrono's result that depends on the time
/// alone; nothing more is said of its characters.
#[verifier::external_body]
fn utc_time_text(dt: NaiveDateTime) -> (res: String)
    ensures
        res@ == utc_time_text_of(dt),
{
    dt.format("%Y-%m-%dT%H:%M:%SZ").to_string()
}

/// Copies an optional text.
fn clone_opt(o: &Option<String>) -> (res: Option<String>)
    ensures
        res == *o,
{
    match o {
        Some(s) => Some(s.clone()),
        None => None,
    }
}

/// Builds the document of a store from its first row.
fn first_document(store: &StoreResult, cur_time_utc: &String) -> (rec: DistinctStoreResult)
    ensures
        rec.timestamp@ == cur_time_utc@,
        rec.seq == store.seq,
        rec.name == store.name,
        rec.store_type == store.store_type,
        rec.address == store.address,
        rec.road_address == store.road_address,
        rec.lat == store.lat,
        rec.lng == store.lng,
        rec.zero_possible == store.zero_possible,
        rec.recommend_names@ == (match store.recommend_name {
            Some(r) => seq![r],
            None => Seq::<String>::empty(),
        }),
        rec.tel == store.tel,
        rec.url == store.url,
        rec.category_group_name == store.category_group_name,
        rec.category_group_code == store.category_group_code,
        rec.category_name == store.category_name,
        rec.category_icon is Some,
        rec.category_icon->0@ == icon_or_empty(store.category_icon),
        rec.avg_rating_bits == store.avg_rating_bits,
        rec.review_count == store.review_count,
{
    let mut recommend_names: Vec<String> = Vec::new();
    match &store.recommend_name {
        Some(r) => recommend_names.push(r.clone()),
        None => {},
    }
    let icon: String = match &store.category_icon {
        Some(s) => s.clone(),
        None => String::new(),
    };
    DistinctStoreResult {
        timestamp: cur_time_utc.clone(),
        seq: store.seq,
        name: store.name.clone(),
        store_type: clone_opt(&store.store_type),
        address: clone_opt(&store.address),
        road_address: clone_opt(&store.road_address),
        lat: store.lat,
        lng: store.lng,
        zero_possible: store.zero_possible,
        recommend_names,
        tel: clone_opt(&store.tel),
        url: clone_opt(&store.url),
        category_group_name: store.category_group_name.clone(),
        category_group_code: store.category_group_code.clone(),
        category_name: store.category_name.clone(),
        category_icon: Some(icon),
        avg_rating_bits: store.avg_rating_bits,
        review_count: store.review_count,
    }
}

/// Reads stores from the database and prepares them for indexing.
pub struct QueryServicePub;

impl QueryServicePub {
    pub fn new() -> (res: QueryServicePub) {
        QueryServicePub
    }


    /// Adds one page of joined store rows, read with at most `limit` rows, to those read so
    /// far, and says which page to read next (`kept_rows`, `next_page`). Reading from the
    /// first store with `batch_size` rows and going on as told collects every row once,
    /// within one query more than the number of full `batch_size` pages
    /// (`lemma_paging_reads_every_row`).
    pub fn absorb_store_batch(
        &self,
        total: &mut Vec<StoreResult>,
        batch: Vec<StoreResult>,
        limit: usize,
        batch_size: usize,
    ) -> (next: StorePage)
        ensures
            final(total)@ == old(total)@ + batch@.take(kept_rows(batch@, limit, batch_size)),
            next == next_page(batch@, limit, batch_size),
    {
        let mut batch = batch;
        let n = batch.len();
        if n == 0 {
            assert(batch@.take(0) =~= Seq::<StoreResult>::empty());
            assert(old(total)@ + batch@.take(0) == old(total)@);
            return StorePage::Done;
        }
        assert(batch@.take(n as int) == batch@);
        if limit == 0 || n < limit {
            total.append(&mut batch);
            return StorePage::Done;
        }
        let k = batch[n - 1].seq;
        let ghost b = batch@;
        let mut m: usize = n;
        while m > 0 && batch[m - 1].seq == k
            invariant
                b == batch@,
                n == b.len(),
                m <= n,
                run_start(b.take(m as int), k) == run_start(b, k),
            decreases m,
        {
            proof {
                assert(b.take(m as int).drop_last() == b.take(m - 1));
                assert(b.take(m as int).last() == b[m - 1]);
            }
            m = m - 1;
        }
        proof {
            if m > 0 {
                assert(b.take(m as int).last() == b[m - 1]);
            }
        }
        let held: usize = n - m;
        if held <= usize::MAX - batch_size {
            batch.truncate(m);
            assert(batch@ == b.take(m as int));
            total.append(&mut batch);
            StorePage::Next { from: k, limit: batch_size + held }
        } else {
            total.append(&mut batch);
            if k == i32::MAX {
                StorePage::Done
            } else {
                StorePage::Next { from: k + 1, limit: batch_size }
            }
        }
    }

    /// Adds one batch of store names to those read so far, as `absorb_store_batch` does.
    pub fn absorb_store_name_batch(
        &self,
        total: &mut Vec<StoreAutoComplete>,
        batch: Vec<StoreAutoComplete>,
    ) -> (next: Option<i32>)
        ensures
            final(total)@ == old(total)@ + batch@,
            batch@.len() == 0 ==> next is None,
            batch@.len() > 0 ==> next == Some(batch@.last().seq),
    {
        let mut batch = batch;
        let n = batch.len();
        if n == 0 {
            assert(old(total)@ + batch@ == old(total)@);
            return None;
        }
        let last = batch[n - 1].seq;
        total.append(&mut batch);
        Some(last)
    }

    /// Adds one batch of keywords to those read so far. An empty batch ends the reading
    /// (`None`); otherwise the next batch starts after the keyword returned.
    pub fn absorb_keyword_batch(
        &self,
        total: &mut Vec<AutoSearchKeyword>,
        batch: Vec<AutoSearchKeyword>,
    ) -> (next: Option<String>)
        ensures
            final(total)@ == old(total)@ + batch@,
            batch@.len() == 0 ==> next is None,
            batch@.len() > 0 ==> next == Some(batch@.last().keyword),
    {
        let mut batch = batch;
        let n = batch.len();
        if n == 0 {
            assert(old(total)@ + batch@ == old(total)@);
            return None;
        }
        let last = batch[n - 1].keyword.clone();
        total.append(&mut batch);
        Some(last)
    }

    /// The time of the last indexing: the change time of the first row read for the
    /// index; an error when there is no row.
    pub fn recent_date_of(&self, change_times: &Vec<NaiveDateTime>) -> (res: Result<NaiveDateTime, IndexingError>)
        ensures
            change_times@.len() == 0 ==> res == Err::<NaiveDateTime, IndexingError>(IndexingError::EmptyIndexInfo),
            change_times@.len() > 0 ==> res == Ok::<NaiveDateTime, IndexingError>(change_times@[0]),
    {
        if change_times.len() == 0 {
            Err(IndexingError::EmptyIndexInfo)
        } else {
            Ok(change_times[0])
        }
    }

    /// All place names: the counties, then the cities, then the districts.
    pub fn merge_location_names(
        &self,
        county_list: Vec<String>,
        city_list: Vec<String>,
        district_list: Vec<String>,
    ) -> (res: Vec<String>)
        ensures
            res@ == county_list@ + city_list@ + district_list@,
    {
        let mut locations_list: Vec<String> = Vec::new();
        let mut county_list = county_list;
        let mut city_list = city_list;
        let mut district_list = district_list;
        locations_list.append(&mut county_list);
        locations_list.append(&mut city_list);
        locations_list.append(&mut district_list);
        locations_list
    }

    /// Merges the rows of each store into one document stamped with the time `cur_utc_date`,
    /// written as `utc_time_text` writes it; see `distinct_store_table`.
    pub fn get_distinct_store_table(
        &self,
        stores: &[StoreResult],
        cur_utc_date: NaiveDateTime,
    ) -> (res: Result<Vec<DistinctStoreResult>, IndexingError>)
        ensures
            res is Ok,
            res matches Ok(docs) && is_distinct_table(docs@, stores@, utc_time_text_of(cur_utc_date)),
    {
        let cur_time_utc: String = utc_time_text(cur_utc_date);
        self.distinct_store_table(stores, &cur_time_utc)
    }

    /// Merges the rows of each store into one document: the fields of its first row, all
    /// its recommendations in row order, the time `cur_time_utc` and an icon name that is
    /// empty where the row has none. One document per store, in order of first occurrence.
    pub fn distinct_store_table(
        &self,
        stores: &[StoreResult],
        cur_time_utc: &String,
    ) -> (res: Result<Vec<DistinctStoreResult>, IndexingError>)
        ensures
            res is Ok,
            res matches Ok(docs) && is_distinct_table(docs@, stores@, cur_time_utc@),
    {
        let mut docs: Vec<DistinctStoreResult> = Vec::new();
        let mut positions: HashMap<i32, usize> = HashMap::new();
        let n = stores.len();
        let mut j: usize = 0;
        while j < n
            invariant
                n == stores@.len(),
                j <= n,
                is_distinct_table(docs@, stores@.take(j as int), cur_time_utc@),
                forall|k: i32|
                    #[trigger] positions@.contains_key(k) <==> distinct_seqs(stores@.take(j as int)).contains(k),
                forall|k: i32|
                    #[trigger] positions@.contains_key(k) ==> positions@[k] < docs@.len()
                        && distinct_seqs(stores@.take(j as int))[positions@[k] as int] == k,
            decreases n - j,
        {
            let ghost p = stores@.take(j as int);
            let ghost q = stores@.take(j + 1);
            let store = &stores[j];
            assert(q.drop_last() == p);
            assert(q.last() == *store);
            proof {
                lemma_distinct_seqs_unique(p);
                lemma_first_index(p, store.seq);
                assert forall|k: i32| first_index_of(p, k) >= 0 implies first_index_of(q, k) == first_index_of(p, k)
                    && q[first_index_of(p, k)] == p[first_index_of(p, k)] by {
                    lemma_first_index(p, k);
                }
            }
            match positions.get(&store.seq) {
                Some(pos) => {
                    let pos: usize = *pos;
                    assert(distinct_seqs(q) == distinct_seqs(p));
                    match &store.recommend_name {
                        Some(r) => {
                            docs[pos].recommend_names.push(r.clone());
                        },
                        None => {},
                    }
                    assert forall|i: int| 0 <= i < docs@.len() implies is_merged_document(
                        #[trigger] docs@[i], q, cur_time_utc@, distinct_seqs(q)[i]) by {
                        let k = distinct_seqs(q)[i];
                        lemma_first_index(p, k);
                        assert(p.contains(p[first_index_of(p, k)]));
                    }
                },
                None => {
                    let doc = first_document(store, cur_time_utc);
                    let ghost k0 = store.seq;
                    let ghost old_docs = docs@;
                    assert(!distinct_seqs(p).contains(k0));
                    assert(distinct_seqs(q) == distinct_seqs(p).push(k0));
                    assert(first_index_of(q, k0) == j);
                    assert(recommends_of(p, k0).len() == 0);
                    assert(recommends_of(q, k0) == doc.recommend_names@);
                    positions.insert(store.seq, docs.len());
                    docs.push(doc);
                    assert forall|i: int| 0 <= i < docs@.len() implies is_merged_document(
                        #[trigger] docs@[i], q, cur_time_utc@, distinct_seqs(q)[i]) by {
                        let k = distinct_seqs(q)[i];
                        if i < docs@.len() - 1 {
                            assert(distinct_seqs(q)[i] == distinct_seqs(p)[i]);
                            assert(docs@[i] == old_docs[i]);
                            assert(is_merged_document(old_docs[i], p, cur_time_utc@, k));
                            assert(distinct_seqs(p).contains(k));
                            lemma_first_index(p, k);
                            assert(k != k0);
                            assert(recommends_of(q, k) == recommends_of(p, k));
                        } else {
                            assert(k == k0);
                        }
                    }
                    assert forall|k: i32| #[trigger] positions@.contains_key(k) <==> distinct_seqs(q).contains(k) by {
                        if distinct_seqs(p).contains(k) {
                            let w = choose|w: int| 0 <= w < distinct_seqs(p).len() && distinct_seqs(p)[w] == k;
                            assert(distinct_seqs(q)[w] == k);
                        }
                        if k == k0 {
                            assert(distinct_seqs(q)[distinct_seqs(p).len() as int] == k);
                        }
                        if distinct_seqs(q).contains(k) && k != k0 {
                            let w = choose|w: int| 0 <= w < distinct_seqs(q).len() && distinct_seqs(q)[w] == k;
                            assert(distinct_seqs(p)[w] == k);
                        }
                    }
                },
            }
            j = j + 1;
        }
        assert(stores@.take(n as int) == stores@);
        Ok(docs)
    }
}

} // verus!
