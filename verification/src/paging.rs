//! Pages of a query result: the listing order, the choice of the records
//! of one page, and the query on the tag index.
//!
//! The query here runs on the index held in memory, and the laws of
//! pagination are proved of the pages it describes. That an index backend
//! answers the statement of the `query` module with the same page is not
//! proved.

use crate::cursor::{cursor_of, cursor_text, CursorError, CursorView, TagQueryCursor};
use crate::index::{
    behind, collect_results, is_eligible, is_page, is_result, is_result_list, item_matches,
    key_before, precedes, summary, RowView, TagIndex,
};
use crate::query::{
    assemble_page, cursor_view, empty_page, empty_page_view, page_limit, page_view,
    records, served_page_size, DataitemRecord, PageView, RecordView, TagQueryPage,
    TagQueryPagination,
};
use crate::tags::{normalize_tags, normalized, pairs};
use crate::text::{lemma_text_less_total, lemma_text_less_transitive, str_less};
use crate::time::Timestamp;
use vstd::prelude::*;

verus! {

/// The listing order is transitive.
pub proof fn lemma_key_before_transitive(
    a_at: Timestamp,
    a_id: Seq<char>,
    b_at: Timestamp,
    b_id: Seq<char>,
    c_at: Timestamp,
    c_id: Seq<char>,
)
    requires
        key_before(a_at, a_id, b_at, b_id),
        key_before(b_at, b_id, c_at, c_id),
    ensures
        key_before(a_at, a_id, c_at, c_id),
{
    if a_at == b_at && b_at == c_at {
        lemma_text_less_transitive(c_id, b_id, a_id);
    }
}

/// Of two records of different items one is listed before the other, and
/// never both ways; no record is listed before itself.
pub proof fn lemma_precedes_total(a: RecordView, b: RecordView)
    ensures
        a.dataitem_id != b.dataitem_id ==> precedes(a, b) || precedes(b, a),
        !(precedes(a, b) && precedes(b, a)),
        !precedes(a, a),
{
    lemma_text_less_total(a.dataitem_id, b.dataitem_id);
    lemma_text_less_total(a.dataitem_id, a.dataitem_id);
}

/// Whether the record `a` is listed before the record `b`.
pub fn record_precedes(a: &DataitemRecord, b: &DataitemRecord) -> (r: bool)
    ensures
        r == precedes(a@, b@),
{
    if b.created_at.is_before(&a.created_at) {
        true
    } else if a.created_at.secs == b.created_at.secs && a.created_at.nanos == b.created_at.nanos {
        str_less(b.dataitem_id.as_str(), a.dataitem_id.as_str())
    } else {
        false
    }
}

/// Whether the record is listed strictly behind the cursor.
pub fn is_behind(record: &DataitemRecord, after: &Option<TagQueryCursor>) -> (r: bool)
    ensures
        r == behind(record@, cursor_view(*after)),
{
    match after {
        None => true,
        Some(c) => {
            if record.created_at.is_before(&c.created_at) {
                true
            } else if c.created_at.secs == record.created_at.secs && c.created_at.nanos
                == record.created_at.nanos {
                str_less(record.dataitem_id.as_str(), c.dataitem_id.as_str())
            } else {
                false
            }
        },
    }
}

/// Takes out of the pool a record that no other record of the pool is
/// listed before; the last record of the pool takes its place. Nothing is
/// taken out of an empty pool.
pub fn take_first(pool: &mut Vec<DataitemRecord>) -> (first: Option<DataitemRecord>)
    ensures
        match first {
            None => old(pool).len() == 0 && final(pool)@ == old(pool)@,
            Some(first) => {
                &&& exists|m: int|
                    0 <= m < old(pool).len() && first == #[trigger] old(pool)@[m] && final(pool)@
                        == old(pool)@.update(m, old(pool)@.last()).drop_last()
                &&& forall|j: int|
                    0 <= j < old(pool).len() ==> !precedes(
                        #[trigger] records(old(pool)@)[j],
                        first@,
                    )
            },
        },
{
    if pool.len() == 0 {
        return None;
    }
    let ghost pv = records(pool@);
    let mut m: usize = 0;
    let mut i: usize = 1;
    proof {
        lemma_precedes_total(pv[0], pv[0]);
    }
    while i < pool.len()
        invariant
            1 <= i <= pool.len(),
            m < i,
            pv == records(pool@),
            pool@ == old(pool)@,
            forall|j: int| 0 <= j < i ==> !precedes(#[trigger] pv[j], pv[m as int]),
        decreases pool.len() - i,
    {
        assert(pv[i as int] == pool@[i as int]@);
        assert(pv[m as int] == pool@[m as int]@);
        if record_precedes(&pool[i], &pool[m]) {
            proof {
                let x = pv[i as int];
                let y = pv[m as int];
                assert forall|j: int| 0 <= j < i + 1 implies !precedes(#[trigger] pv[j], x) by {
                    if precedes(pv[j], x) {
                        if j == i {
                            lemma_precedes_total(x, x);
                        } else {
                            lemma_key_before_transitive(
                                pv[j].created_at,
                                pv[j].dataitem_id,
                                x.created_at,
                                x.dataitem_id,
                                y.created_at,
                                y.dataitem_id,
                            );
                        }
                    }
                }
            }
            m = i;
        }
        i = i + 1;
    }
    let first = pool.swap_remove(m);
    assert(first@ == pv[m as int]);
    Some(first)
}

/// Whether `top` lists the first records of the pool behind the cursor,
/// at most `n` of them: it is in listing order, and a record of the pool
/// behind the cursor that it lacks is listed behind its last, which is then
/// the `n`-th.
pub open spec fn is_leading(
    top: Seq<RecordView>,
    pool: Seq<RecordView>,
    n: int,
    after: Option<CursorView>,
) -> bool {
    &&& top.len() <= n
    &&& forall|i: int| 0 <= i < top.len() ==> pool.contains(#[trigger] top[i]) && behind(top[i], after)
    &&& forall|i: int, j: int|
        0 <= i < j < top.len() ==> precedes(#[trigger] top[i], #[trigger] top[j])
    &&& forall|k: int|
        0 <= k < pool.len() && behind(#[trigger] pool[k], after) && !top.contains(pool[k])
            ==> top.len() == n && (n > 0 ==> precedes(top.last(), pool[k]))
}

/// No two records of the list belong to one item.
pub open spec fn distinct_items(list: Seq<RecordView>) -> bool {
    forall|i: int, j: int|
        0 <= i < j < list.len() ==> (#[trigger] list[i]).dataitem_id != (#[trigger] list[j]).dataitem_id
}

/// The records of the pool that are behind the cursor.
fn records_behind(pool: Vec<DataitemRecord>, after: &Option<TagQueryCursor>) -> (rest: Vec<
    DataitemRecord,
>)
    requires
        distinct_items(records(pool@)),
    ensures
        distinct_items(records(rest@)),
        forall|r: int|
            0 <= r < rest.len() ==> records(pool@).contains(#[trigger] records(rest@)[r]) && behind(
                records(rest@)[r],
                cursor_view(*after),
            ),
        forall|k: int|
            0 <= k < pool.len() && behind(#[trigger] records(pool@)[k], cursor_view(*after))
                ==> records(rest@).contains(records(pool@)[k]),
{
    let ghost pv = records(pool@);
    let ghost cv = cursor_view(*after);
    let mut pool = pool;
    let mut rest: Vec<DataitemRecord> = Vec::new();
    while pool.len() > 0
        invariant
            pool.len() <= pv.len(),
            records(pool@) == pv.take(pool.len() as int),
            cv == cursor_view(*after),
            distinct_items(pv),
            forall|r: int|
                0 <= r < rest.len() ==> behind(#[trigger] records(rest@)[r], cv) && exists|k: int|
                    pool.len() <= k < pv.len() && pv[k] == records(rest@)[r],
            distinct_items(records(rest@)),
            forall|k: int|
                pool.len() <= k < pv.len() && behind(#[trigger] pv[k], cv) ==> records(
                    rest@,
                ).contains(pv[k]),
        decreases pool.len(),
    {
        let ghost before_pool = pool@;
        let ghost before = records(rest@);
        let ghost n = pool.len() - 1;
        let record = pool.pop().unwrap();
        proof {
            assert(record == before_pool[n]);
            assert(records(before_pool)[n] == record@);
            assert(pv.take(n + 1)[n] == pv[n]);
            assert(record@ == pv[n]);
            assert(records(pool@) == pv.take(n)) by {
                assert forall|k: int| 0 <= k < n implies records(pool@)[k] == pv.take(n)[k] by {
                    assert(records(before_pool)[k] == pv.take(n + 1)[k]);
                }
            }
        }
        if is_behind(&record, after) {
            rest.push(record);
            proof {
                let now = records(rest@);
                assert(now == before.push(pv[n]));
                assert forall|r: int| 0 <= r < now.len() implies behind(#[trigger] now[r], cv)
                    && exists|k: int| n <= k < pv.len() && pv[k] == now[r] by {
                    if r < before.len() {
                        assert(now[r] == before[r]);
                        let k = choose|k: int| n + 1 <= k < pv.len() && pv[k] == before[r];
                        assert(pv[k] == now[r]);
                    } else {
                        assert(pv[n] == now[r]);
                    }
                }
                assert forall|a: int, b: int| 0 <= a < b < now.len() implies (
                #[trigger] now[a]).dataitem_id != (#[trigger] now[b]).dataitem_id by {
                    assert(now[a] == before[a]);
                    if b < before.len() {
                        assert(now[b] == before[b]);
                    } else {
                        let k = choose|k: int| n + 1 <= k < pv.len() && pv[k] == before[a];
                        assert(pv[n].dataitem_id != pv[k].dataitem_id);
                    }
                }
                assert forall|k: int| n <= k < pv.len() && behind(#[trigger] pv[k], cv) implies now.contains(
                    pv[k],
                ) by {
                    if k == n {
                        assert(now[before.len() as int] == pv[k]);
                    } else {
                        let r = choose|r: int| 0 <= r < before.len() && before[r] == pv[k];
                        assert(now[r] == pv[k]);
                    }
                }
            }
        } else {
            proof {
                assert forall|r: int| 0 <= r < rest.len() implies behind(
                    #[trigger] records(rest@)[r],
                    cv,
                ) && exists|k: int| n <= k < pv.len() && pv[k] == records(rest@)[r] by {
                    let k = choose|k: int| n + 1 <= k < pv.len() && pv[k] == before[r];
                    assert(pv[k] == records(rest@)[r]);
                }
            }
        }
    }
    proof {
        assert forall|r: int| 0 <= r < rest.len() implies pv.contains(#[trigger] records(rest@)[r])
            && behind(records(rest@)[r], cv) by {
            let k = choose|k: int| 0 <= k < pv.len() && pv[k] == records(rest@)[r];
            assert(pv[k] == records(rest@)[r]);
        }
    }
    rest
}

/// The first `n` records of the pool behind the cursor, in listing order.
fn leading_records(pool: Vec<DataitemRecord>, n: usize, after: &Option<TagQueryCursor>) -> (top:
    Vec<DataitemRecord>)
    requires
        distinct_items(records(pool@)),
    ensures
        is_leading(records(top@), records(pool@), n as int, cursor_view(*after)),
{
    let ghost pv = records(pool@);
    let ghost cv = cursor_view(*after);
    let mut rest = records_behind(pool, after);
    let mut top: Vec<DataitemRecord> = Vec::new();
    while top.len() < n && rest.len() > 0
        invariant
            top.len() <= n,
            distinct_items(records(rest@)),
            forall|i: int|
                0 <= i < top.len() ==> pv.contains(#[trigger] records(top@)[i]) && behind(
                    records(top@)[i],
                    cv,
                ),
            forall|r: int|
                0 <= r < rest.len() ==> pv.contains(#[trigger] records(rest@)[r]) && behind(
                    records(rest@)[r],
                    cv,
                ),
            forall|i: int, j: int|
                0 <= i < j < top.len() ==> precedes(
                    #[trigger] records(top@)[i],
                    #[trigger] records(top@)[j],
                ),
            forall|i: int, r: int|
                0 <= i < top.len() && 0 <= r < rest.len() ==> precedes(
                    #[trigger] records(top@)[i],
                    #[trigger] records(rest@)[r],
                ),
            forall|k: int|
                0 <= k < pv.len() && behind(#[trigger] pv[k], cv) ==> records(top@).contains(pv[k])
                    || records(rest@).contains(pv[k]),
        decreases rest.len(),
    {
        let ghost old_rest = records(rest@);
        let ghost old_top = records(top@);
        let ghost old_rest_raw = rest@;
        let first = match take_first(&mut rest) {
            Some(first) => first,
            None => {
                assert(false);
                return Vec::new();
            },
        };
        let ghost m = choose|m: int|
            0 <= m < old_rest_raw.len() && first == #[trigger] old_rest_raw[m] && rest@
                == old_rest_raw.update(m, old_rest_raw.last()).drop_last();
        let ghost x = first@;
        top.push(first);
        proof {
            let new_rest = records(rest@);
            let new_top = records(top@);
            let last = old_rest.len() - 1;
            assert(x == old_rest[m]);
            assert(new_top == old_top.push(x));
            // where each record of the new pool stood in the old one
            assert forall|r: int| 0 <= r < new_rest.len() implies #[trigger] new_rest[r] == old_rest[if r
                == m {
                last
            } else {
                r
            }] by {
                assert(new_rest[r] == rest@[r]@);
            }
            assert forall|a: int, b: int| 0 <= a < b < new_rest.len() implies (
            #[trigger] new_rest[a]).dataitem_id != (#[trigger] new_rest[b]).dataitem_id by {
                let a0 = if a == m {
                    last
                } else {
                    a
                };
                let b0 = if b == m {
                    last
                } else {
                    b
                };
                assert(new_rest[a] == old_rest[a0]);
                assert(new_rest[b] == old_rest[b0]);
                if a0 < b0 {
                    assert(old_rest[a0].dataitem_id != old_rest[b0].dataitem_id);
                } else {
                    assert(old_rest[b0].dataitem_id != old_rest[a0].dataitem_id);
                }
            }
            assert forall|i: int| 0 <= i < new_top.len() implies pv.contains(#[trigger] new_top[i])
                && behind(new_top[i], cv) by {
                if i < old_top.len() {
                    assert(new_top[i] == old_top[i]);
                }
            }
            assert forall|r: int| 0 <= r < new_rest.len() implies pv.contains(
                #[trigger] new_rest[r],
            ) && behind(new_rest[r], cv) by {
                let r0 = if r == m {
                    last
                } else {
                    r
                };
                assert(new_rest[r] == old_rest[r0]);
            }
            assert forall|i: int, j: int| 0 <= i < j < new_top.len() implies precedes(
                #[trigger] new_top[i],
                #[trigger] new_top[j],
            ) by {
                assert(new_top[i] == old_top[i]);
                if j < old_top.len() {
                    assert(new_top[j] == old_top[j]);
                } else {
                    assert(precedes(old_top[i], old_rest[m]));
                }
            }
            assert forall|i: int, r: int|
                0 <= i < new_top.len() && 0 <= r < new_rest.len() implies precedes(
                #[trigger] new_top[i],
                #[trigger] new_rest[r],
            ) by {
                let r0 = if r == m {
                    last
                } else {
                    r
                };
                assert(new_rest[r] == old_rest[r0]);
                if i < old_top.len() {
                    assert(new_top[i] == old_top[i]);
                    assert(precedes(old_top[i], old_rest[r0]));
                } else {
                    assert(r0 != m);
                    if r0 < m {
                        assert(old_rest[r0].dataitem_id != old_rest[m].dataitem_id);
                    } else {
                        assert(old_rest[m].dataitem_id != old_rest[r0].dataitem_id);
                    }
                    lemma_precedes_total(x, old_rest[r0]);
                    assert(!precedes(old_rest[r0], x));
                }
            }
            assert forall|k: int| 0 <= k < pv.len() && behind(#[trigger] pv[k], cv) implies new_top.contains(
                pv[k],
            ) || new_rest.contains(pv[k]) by {
                if old_top.contains(pv[k]) {
                    let i = choose|i: int| 0 <= i < old_top.len() && old_top[i] == pv[k];
                    assert(new_top[i] == pv[k]);
                } else {
                    let r = choose|r: int| 0 <= r < old_rest.len() && old_rest[r] == pv[k];
                    if r == m {
                        assert(new_top[old_top.len() as int] == pv[k]);
                    } else if r == last {
                        assert(new_rest[m] == old_rest[last]);
                        assert(new_rest[m] == pv[k]);
                    } else {
                        assert(new_rest[r] == old_rest[r]);
                        assert(new_rest[r] == pv[k]);
                    }
                }
            }
        }
    }
    proof {
        let tv = records(top@);
        let rv = records(rest@);
        assert forall|k: int|
            0 <= k < pv.len() && behind(#[trigger] pv[k], cv) && !tv.contains(pv[k]) implies tv.len()
            == n && (n > 0 ==> precedes(tv.last(), pv[k])) by {
            assert(rv.contains(pv[k]));
            let r = choose|r: int| 0 <= r < rv.len() && rv[r] == pv[k];
            if n > 0 {
                assert(precedes(tv[tv.len() - 1], rv[r]));
            }
        }
    }
    top
}

/// The page that is made of the leading records of a result: the first
/// `limit` of them, with more to come where there is a further one.
pub proof fn lemma_page_from_leading(
    top: Seq<RecordView>,
    pool: Seq<RecordView>,
    rows: Seq<RowView>,
    filters: Seq<(Seq<char>, Seq<char>)>,
    limit: int,
    after: Option<CursorView>,
)
    requires
        limit >= 1,
        is_result_list(pool, rows, filters),
        is_leading(top, pool, limit + 1, after),
    ensures
        top.len() <= limit ==> is_page(top, false, rows, filters, limit, after),
        top.len() > limit ==> is_page(top.take(limit), true, rows, filters, limit, after),
{
    let items = if top.len() <= limit {
        top
    } else {
        top.take(limit)
    };
    let has_more = top.len() > limit;
    assert forall|i: int| 0 <= i < items.len() implies is_eligible(
        rows,
        filters,
        after,
        #[trigger] items[i],
    ) by {
        assert(items[i] == top[i]);
        let k = choose|k: int| 0 <= k < pool.len() && pool[k] == top[i];
        assert(is_result(rows, filters, pool[k]));
    }
    assert forall|i: int, j: int| 0 <= i < j < items.len() implies precedes(
        #[trigger] items[i],
        #[trigger] items[j],
    ) by {
        assert(items[i] == top[i]);
        assert(items[j] == top[j]);
    }
    assert forall|e: RecordView| #[trigger]
        is_eligible(rows, filters, after, e) && !items.contains(e) implies has_more && (items.len()
        > 0 ==> precedes(items.last(), e)) by {
        assert(pool.contains(e));
        let k = choose|k: int| 0 <= k < pool.len() && pool[k] == e;
        if top.contains(e) {
            let t = choose|t: int| 0 <= t < top.len() && top[t] == e;
            if t < items.len() {
                assert(items[t] == e);
            }
            assert(items.last() == top[limit - 1]);
            assert(precedes(top[limit - 1], top[t]));
        } else {
            assert(behind(pool[k], after));
            assert(top.len() == limit + 1);
            assert(precedes(top.last(), pool[k]));
            assert(items.last() == top[limit - 1]);
            assert(precedes(top[limit - 1], top[limit]));
            lemma_key_before_transitive(
                top[limit - 1].created_at,
                top[limit - 1].dataitem_id,
                top[limit].created_at,
                top[limit].dataitem_id,
                e.created_at,
                e.dataitem_id,
            );
        }
    }
    if has_more {
        let e = top[limit];
        let k = choose|k: int| 0 <= k < pool.len() && pool[k] == e;
        assert(is_result(rows, filters, pool[k]));
        assert(is_eligible(rows, filters, after, e));
        if items.contains(e) {
            let i = choose|i: int| 0 <= i < items.len() && items[i] == e;
            assert(items[i] == top[i]);
            assert(precedes(top[i], top[limit]));
            lemma_precedes_total(e, e);
        }
    }
}

/// Without a filter no record is in the result, and the page is empty.
pub proof fn lemma_no_filter_no_result(
    rows: Seq<RowView>,
    filters: Seq<(Seq<char>, Seq<char>)>,
    limit: int,
    after: Option<CursorView>,
)
    requires
        filters.len() == 0,
        limit >= 0,
    ensures
        forall|e: RecordView| !is_result(rows, filters, e),
        is_page(Seq::<RecordView>::empty(), false, rows, filters, limit, after),
{
}

/// The cursor that names the last record of a page with more to come,
/// in its wire form; `None` on the last page.
pub open spec fn cursor_behind_text(items: Seq<RecordView>, has_more: bool) -> Option<Seq<char>> {
    if has_more && items.len() > 0 {
        match cursor_text(items.last().created_at, items.last().dataitem_id) {
            Ok(text) => Some(text),
            Err(_) => None,
        }
    } else {
        None
    }
}

/// Whether `page` answers a query for at most `limit` records behind the
/// cursor: its items and `has_more` are the page of the query; with more
/// to come, and only then, it carries the cursor that names its last
/// record; and that cursor decodes to the time and id of that record.
pub open spec fn is_answer(
    page: PageView,
    rows: Seq<RowView>,
    filters: Seq<(Seq<char>, Seq<char>)>,
    limit: int,
    after: Option<CursorView>,
) -> bool {
    &&& is_page(page.items, page.has_more, rows, filters, limit, after)
    &&& page.next_cursor == cursor_behind_text(page.items, page.has_more)
    &&& page.has_more <==> page.next_cursor is Some
    &&& page.next_cursor matches Some(text) ==> cursor_of(text) == Ok::<CursorView, CursorError>(
        cursor_behind(page.items)->0,
    )
}

/// Answers a query on the index with one page.
///
/// The filters are normalised; an item matches where the index has a row
/// of it for every filter that is left, and with no filter left the page is
/// empty. The record of an item carries the time and content type of its
/// latest row under the filters. The records behind the cursor are listed
/// by time and then by id, both descending; the page holds the first
/// `first` of them, `first` taken between 1 and `MAX_PAGE_SIZE`, and with
/// more to come it names its last record in `next_cursor`, a cursor that
/// decodes to the time and id of that record. The query fails only where
/// the cursor cannot be written, as for a time outside the years 0 to
/// 9999.
pub fn query_dataitems_by_tags(
    index: &TagIndex,
    filters: &[(String, String)],
    pagination: &TagQueryPagination,
) -> (r: Result<TagQueryPage, CursorError>)
    ensures
        match r {
            Ok(page) => is_answer(
                page@,
                index@,
                normalized(pairs(filters@)),
                served_page_size(pagination.first) as int,
                cursor_view(pagination.after),
            ),
            Err(e) => exists|items: Seq<RecordView>| #[trigger]
                is_page(
                    items,
                    true,
                    index@,
                    normalized(pairs(filters@)),
                    served_page_size(pagination.first) as int,
                    cursor_view(pagination.after),
                ) && cursor_text(items.last().created_at, items.last().dataitem_id) == Err::<
                    Seq<char>,
                    CursorError,
                >(e),
        },
        normalized(pairs(filters@)).len() == 0 ==> page_view(r) == Ok::<PageView, CursorError>(
            empty_page_view(),
        ),
{
    let limit = page_limit(pagination.first);
    let ghost cv = cursor_view(pagination.after);
    if filters.len() == 0 {
        proof {
            assert(pairs(filters@) == Seq::<(Seq<char>, Seq<char>)>::empty());
            lemma_no_filter_no_result(index@, normalized(pairs(filters@)), limit as int, cv);
        }
        return Ok(empty_page());
    }
    let normal = normalize_tags(filters);
    assert(pairs(normal@).len() == normal.len());
    if normal.len() == 0 {
        proof {
            lemma_no_filter_no_result(index@, normalized(pairs(filters@)), limit as int, cv);
        }
        return Ok(empty_page());
    }
    let results = collect_results(index.rows(), &normal);
    let ghost pool = records(results@);
    let top = leading_records(results, limit + 1, &pagination.after);
    let ghost tv = records(top@);
    proof {
        lemma_page_from_leading(tv, pool, index@, pairs(normal@), limit as int, cv);
    }
    let r = assemble_page(top, limit);
    proof {
        if tv.len() > limit {
            assert(tv.take(limit as int).last() == tv[limit - 1]);
        }
    }
    r
}

/// Two pages for one query cannot differ where the record of the one is
/// listed before the record of the other at the first place of difference.
proof fn lemma_page_agree_one_way(
    a: Seq<RecordView>,
    a_more: bool,
    b: Seq<RecordView>,
    b_more: bool,
    rows: Seq<RowView>,
    filters: Seq<(Seq<char>, Seq<char>)>,
    limit: int,
    after: Option<CursorView>,
    i: int,
)
    requires
        is_page(a, a_more, rows, filters, limit, after),
        is_page(b, b_more, rows, filters, limit, after),
        0 <= i < a.len(),
        i < b.len(),
        forall|j: int| 0 <= j < i ==> a[j] == b[j],
    ensures
        !precedes(a[i], b[i]),
{
    let x = a[i];
    let y = b[i];
    if precedes(x, y) {
        lemma_precedes_total(x, y);
        assert(is_eligible(rows, filters, after, x));
        if b.contains(x) {
            let k = choose|k: int| 0 <= k < b.len() && b[k] == x;
            if k < i {
                assert(a[k] == b[k]);
                assert(precedes(a[k], a[i]));
                lemma_precedes_total(x, x);
            } else if k > i {
                assert(precedes(b[i], b[k]));
            }
        } else {
            let m = b.len() - 1;
            assert(precedes(b.last(), x));
            if m > i {
                assert(precedes(b[i], b[m]));
                lemma_key_before_transitive(
                    y.created_at,
                    y.dataitem_id,
                    b[m].created_at,
                    b[m].dataitem_id,
                    x.created_at,
                    x.dataitem_id,
                );
            }
        }
    }
}

/// Two pages for one query hold the same records up to the length of the
/// shorter one.
proof fn lemma_page_agree(
    a: Seq<RecordView>,
    a_more: bool,
    b: Seq<RecordView>,
    b_more: bool,
    rows: Seq<RowView>,
    filters: Seq<(Seq<char>, Seq<char>)>,
    limit: int,
    after: Option<CursorView>,
    i: int,
)
    requires
        is_page(a, a_more, rows, filters, limit, after),
        is_page(b, b_more, rows, filters, limit, after),
        0 <= i <= a.len(),
        i <= b.len(),
    ensures
        forall|j: int| 0 <= j < i ==> a[j] == b[j],
    decreases i,
{
    if i > 0 {
        lemma_page_agree(a, a_more, b, b_more, rows, filters, limit, after, i - 1);
        lemma_page_agree_one_way(a, a_more, b, b_more, rows, filters, limit, after, i - 1);
        lemma_page_agree_one_way(b, b_more, a, a_more, rows, filters, limit, after, i - 1);
        let x = a[i - 1];
        let y = b[i - 1];
        assert(is_eligible(rows, filters, after, x));
        assert(is_eligible(rows, filters, after, y));
        lemma_precedes_total(x, y);
    }
}

/// A page for a query is no longer than another page for it.
proof fn lemma_page_not_longer(
    a: Seq<RecordView>,
    a_more: bool,
    b: Seq<RecordView>,
    b_more: bool,
    rows: Seq<RowView>,
    filters: Seq<(Seq<char>, Seq<char>)>,
    limit: int,
    after: Option<CursorView>,
)
    requires
        is_page(a, a_more, rows, filters, limit, after),
        is_page(b, b_more, rows, filters, limit, after),
    ensures
        b.len() <= a.len(),
{
    if a.len() < b.len() {
        lemma_page_agree(a, a_more, b, b_more, rows, filters, limit, after, a.len() as int);
        let e = b[a.len() as int];
        assert(is_eligible(rows, filters, after, e));
        if a.contains(e) {
            let k = choose|k: int| 0 <= k < a.len() && a[k] == e;
            assert(b[k] == e);
            assert(precedes(b[k], b[a.len() as int]));
            lemma_precedes_total(e, e);
        }
    }
}

/// The page of a query is determined: two pages of at most `limit`
/// records behind the same cursor, for the same filters on the same index,
/// hold the same records and agree on whether there are more.
pub proof fn law_page_unique(
    a: Seq<RecordView>,
    a_more: bool,
    b: Seq<RecordView>,
    b_more: bool,
    rows: Seq<RowView>,
    filters: Seq<(Seq<char>, Seq<char>)>,
    limit: int,
    after: Option<CursorView>,
)
    requires
        is_page(a, a_more, rows, filters, limit, after),
        is_page(b, b_more, rows, filters, limit, after),
    ensures
        a == b,
        a_more == b_more,
{
    lemma_page_not_longer(a, a_more, b, b_more, rows, filters, limit, after);
    lemma_page_not_longer(b, b_more, a, a_more, rows, filters, limit, after);
    lemma_page_agree(a, a_more, b, b_more, rows, filters, limit, after, a.len() as int);
    assert(a =~= b);
    if a_more {
        let e = choose|e: RecordView| #[trigger]
            is_eligible(rows, filters, after, e) && !a.contains(e);
        assert(is_eligible(rows, filters, after, e) && !b.contains(e));
    }
    if b_more {
        let e = choose|e: RecordView| #[trigger]
            is_eligible(rows, filters, after, e) && !b.contains(e);
        assert(is_eligible(rows, filters, after, e) && !a.contains(e));
    }
}

/// The cursor that names the last record of a page.
pub open spec fn cursor_behind(items: Seq<RecordView>) -> Option<CursorView> {
    Some(
        CursorView {
            created_at: items.last().created_at,
            dataitem_id: items.last().dataitem_id,
        },
    )
}

/// The cursor with which the `k`-th page of a walk is asked for: none for
/// the first page, and then the one that names the last record of the page
/// before.
pub open spec fn start_of(pages: Seq<PageView>, k: int) -> Option<CursorView> {
    if k == 0 {
        None
    } else {
        cursor_behind(pages[k - 1].items)
    }
}

/// Whether `pages` is a walk through the result of a query on a fixed
/// index: the first page is asked for without a cursor, each further page
/// with the cursor of the page before it, and the walk ends with the first
/// page that has no more to come.
pub open spec fn is_walk(
    pages: Seq<PageView>,
    rows: Seq<RowView>,
    filters: Seq<(Seq<char>, Seq<char>)>,
    limit: int,
) -> bool {
    &&& pages.len() > 0
    &&& forall|k: int|
        0 <= k < pages.len() ==> is_page(
            (#[trigger] pages[k]).items,
            pages[k].has_more,
            rows,
            filters,
            limit,
            start_of(pages, k),
        )
    &&& forall|k: int| 0 <= k < pages.len() ==> ((#[trigger] pages[k]).has_more <==> k < pages.len() - 1)
}

/// The records of the pages, one page after the other.
pub open spec fn walked(pages: Seq<PageView>) -> Seq<RecordView>
    decreases pages.len(),
{
    if pages.len() == 0 {
        Seq::empty()
    } else {
        walked(pages.drop_last()) + pages.last().items
    }
}

/// What holds of the records `w` of the first pages of a walk, the last
/// of which has the records `items`: they are in listing order and belong
/// to the result, and every record of the result that they lack is listed
/// behind the last record of that page, which has more to come.
pub open spec fn is_walked(
    w: Seq<RecordView>,
    items: Seq<RecordView>,
    has_more: bool,
    rows: Seq<RowView>,
    filters: Seq<(Seq<char>, Seq<char>)>,
) -> bool {
    &&& forall|i: int, j: int| 0 <= i < j < w.len() ==> precedes(#[trigger] w[i], #[trigger] w[j])
    &&& forall|i: int| 0 <= i < w.len() ==> is_result(rows, filters, #[trigger] w[i])
    &&& items.len() > 0 ==> w.len() > 0 && w.last() == items.last()
    &&& forall|e: RecordView| #[trigger]
        is_result(rows, filters, e) && !w.contains(e) ==> has_more && items.len() > 0 && precedes(
            items.last(),
            e,
        )
}

/// The first page of a walk.
proof fn lemma_walk_first(
    items: Seq<RecordView>,
    has_more: bool,
    rows: Seq<RowView>,
    filters: Seq<(Seq<char>, Seq<char>)>,
    limit: int,
)
    requires
        limit >= 1,
        is_page(items, has_more, rows, filters, limit, None),
    ensures
        is_walked(items, items, has_more, rows, filters),
{
    assert forall|e: RecordView| #[trigger]
        is_result(rows, filters, e) && !items.contains(e) implies has_more && items.len() > 0
        && precedes(items.last(), e) by {
        assert(is_eligible(rows, filters, None, e));
    }
    assert forall|i: int| 0 <= i < items.len() implies is_result(rows, filters, #[trigger] items[i]) by {
        assert(is_eligible(rows, filters, None, items[i]));
    }
}

/// A further page of a walk: it is asked for with the cursor of the page
/// before it, which has more to come.
proof fn lemma_walk_step(
    front: Seq<RecordView>,
    before: Seq<RecordView>,
    items: Seq<RecordView>,
    has_more: bool,
    rows: Seq<RowView>,
    filters: Seq<(Seq<char>, Seq<char>)>,
    limit: int,
)
    requires
        limit >= 1,
        is_walked(front, before, true, rows, filters),
        before.len() > 0,
        is_page(items, has_more, rows, filters, limit, cursor_behind(before)),
    ensures
        is_walked(front + items, items, has_more, rows, filters),
{
    let w = front + items;
    let last = before.last();
    let start = cursor_behind(before);
    assert(front.len() > 0 && front.last() == last);
    assert forall|i: int, j: int| 0 <= i < j < w.len() implies precedes(
        #[trigger] w[i],
        #[trigger] w[j],
    ) by {
        if j < front.len() {
            assert(w[i] == front[i] && w[j] == front[j]);
        } else if i >= front.len() {
            assert(w[i] == items[i - front.len()]);
            assert(w[j] == items[j - front.len()]);
        } else {
            let item = items[j - front.len()];
            assert(w[i] == front[i]);
            assert(w[j] == item);
            assert(is_eligible(rows, filters, start, item));
            assert(precedes(last, item));
            if i < front.len() - 1 {
                assert(precedes(front[i], front[front.len() - 1]));
                lemma_key_before_transitive(
                    front[i].created_at,
                    front[i].dataitem_id,
                    last.created_at,
                    last.dataitem_id,
                    item.created_at,
                    item.dataitem_id,
                );
            }
        }
    }
    assert forall|i: int| 0 <= i < w.len() implies is_result(rows, filters, #[trigger] w[i]) by {
        if i < front.len() {
            assert(w[i] == front[i]);
        } else {
            assert(w[i] == items[i - front.len()]);
            assert(is_eligible(rows, filters, start, items[i - front.len()]));
        }
    }
    assert forall|e: RecordView| #[trigger]
        is_result(rows, filters, e) && !w.contains(e) implies has_more && items.len() > 0
        && precedes(items.last(), e) by {
        if front.contains(e) {
            let i = choose|i: int| 0 <= i < front.len() && front[i] == e;
            assert(w[i] == e);
        }
        assert(precedes(last, e));
        assert(is_eligible(rows, filters, start, e));
        if items.contains(e) {
            let i = choose|i: int| 0 <= i < items.len() && items[i] == e;
            assert(w[front.len() + i] == e);
        }
    }
    if items.len() > 0 {
        assert(w.last() == w[w.len() - 1]);
        assert(w[w.len() - 1] == items[items.len() - 1]);
    }
}

/// The first `k` pages of a walk.
proof fn lemma_walk_prefix(
    pages: Seq<PageView>,
    rows: Seq<RowView>,
    filters: Seq<(Seq<char>, Seq<char>)>,
    limit: int,
    k: int,
)
    requires
        limit >= 1,
        is_walk(pages, rows, filters, limit),
        1 <= k <= pages.len(),
    ensures
        is_walked(walked(pages.take(k)), pages[k - 1].items, pages[k - 1].has_more, rows, filters),
    decreases k,
{
    let page = pages[k - 1];
    assert(pages.take(k).drop_last() == pages.take(k - 1));
    assert(pages.take(k).last() == page);
    let front = walked(pages.take(k - 1));
    assert(walked(pages.take(k)) == front + page.items);
    assert(is_page(page.items, page.has_more, rows, filters, limit, start_of(pages, k - 1)));
    if k == 1 {
        assert(pages.take(0) == Seq::<PageView>::empty());
        assert(front == Seq::<RecordView>::empty());
        assert(front + page.items == page.items);
        lemma_walk_first(page.items, page.has_more, rows, filters, limit);
    } else {
        lemma_walk_prefix(pages, rows, filters, limit, k - 1);
        let prev = pages[k - 2];
        assert(prev.has_more);
        assert(is_page(prev.items, prev.has_more, rows, filters, limit, start_of(pages, k - 2)));
        assert(prev.items.len() == limit);
        lemma_walk_step(front, prev.items, page.items, page.has_more, rows, filters, limit);
    }
}

/// Pagination is complete and without overlap: on a fixed index and with
/// fixed filters, the pages of a walk, one after the other, list exactly
/// the records of the result, each once, in listing order.
pub proof fn law_walk_lists_result(
    pages: Seq<PageView>,
    rows: Seq<RowView>,
    filters: Seq<(Seq<char>, Seq<char>)>,
    limit: int,
)
    requires
        limit >= 1,
        is_walk(pages, rows, filters, limit),
    ensures
        forall|i: int, j: int|
            0 <= i < j < walked(pages).len() ==> precedes(
                #[trigger] walked(pages)[i],
                #[trigger] walked(pages)[j],
            ),
        walked(pages).no_duplicates(),
        forall|e: RecordView| walked(pages).contains(e) <==> #[trigger] is_result(rows, filters, e),
{
    let w = walked(pages);
    lemma_walk_prefix(pages, rows, filters, limit, pages.len() as int);
    assert(pages.take(pages.len() as int) == pages);
    let end = pages[pages.len() - 1];
    assert(!end.has_more);
    assert(is_walked(w, end.items, false, rows, filters));
    assert forall|i: int, j: int| 0 <= i < w.len() && 0 <= j < w.len() && i != j implies w[i]
        != w[j] by {
        lemma_precedes_total(w[i], w[i]);
        if i < j {
            assert(precedes(w[i], w[j]));
        } else {
            assert(precedes(w[j], w[i]));
        }
    }
    assert forall|e: RecordView| w.contains(e) <==> #[trigger] is_result(rows, filters, e) by {
        if w.contains(e) {
            let i = choose|i: int| 0 <= i < w.len() && w[i] == e;
            assert(is_result(rows, filters, w[i]));
        }
    }
}

/// Whether the records are those of exactly the matching items, each
/// item once.
pub open spec fn lists_matching_items(
    list: Seq<RecordView>,
    rows: Seq<RowView>,
    filters: Seq<(Seq<char>, Seq<char>)>,
) -> bool {
    &&& forall|i: int, j: int|
        0 <= i < j < list.len() ==> (#[trigger] list[i]).dataitem_id != (#[trigger] list[j]).dataitem_id
    &&& forall|i: int|
        0 <= i < list.len() ==> item_matches(rows, (#[trigger] list[i]).dataitem_id, filters)
    &&& forall|id: Seq<char>| #[trigger]
        item_matches(rows, id, filters) ==> exists|i: int|
            0 <= i < list.len() && (#[trigger] list[i]).dataitem_id == id
}

/// The pages of a walk list exactly the matching items: no matching item
/// is missing from them, no other item is in them, and none comes twice.
pub proof fn law_walk_lists_matching_items(
    pages: Seq<PageView>,
    rows: Seq<RowView>,
    filters: Seq<(Seq<char>, Seq<char>)>,
    limit: int,
)
    requires
        limit >= 1,
        is_walk(pages, rows, filters, limit),
    ensures
        lists_matching_items(walked(pages), rows, filters),
{
    let w = walked(pages);
    law_walk_lists_result(pages, rows, filters, limit);
    assert forall|i: int| 0 <= i < w.len() implies is_result(rows, filters, #[trigger] w[i]) by {
        assert(w.contains(w[i]));
    }
    assert forall|i: int, j: int| 0 <= i < j < w.len() implies (#[trigger] w[i]).dataitem_id != (
    #[trigger] w[j]).dataitem_id by {
        assert(is_result(rows, filters, w[i]));
        assert(is_result(rows, filters, w[j]));
        lemma_precedes_total(w[i], w[i]);
        assert(precedes(w[i], w[j]));
    }
    assert forall|id: Seq<char>| #[trigger] item_matches(rows, id, filters) implies exists|i: int|
        0 <= i < w.len() && (#[trigger] w[i]).dataitem_id == id by {
        let e = summary(rows, id, filters);
        assert(is_result(rows, filters, e));
        assert(w.contains(e));
        let i = choose|i: int| 0 <= i < w.len() && w[i] == e;
        assert(w[i].dataitem_id == id);
    }
}

/// The cursor with which the `k`-th page is asked for by a caller who
/// follows the cursors: none for the first page, and then the cursor that
/// the `next_cursor` of the page before decodes to.
pub open spec fn start_by_text(pages: Seq<PageView>, k: int) -> Option<CursorView> {
    if k == 0 {
        None
    } else {
        match pages[k - 1].next_cursor {
            Some(text) => match cursor_of(text) {
                Ok(cursor) => Some(cursor),
                Err(_) => None,
            },
            None => None,
        }
    }
}

/// Whether `pages` are the answers that a caller gets who follows the
/// cursors on a fixed index: the first query has no cursor, each further
/// one the cursor decoded from the `next_cursor` of the answer before, and
/// the caller stops at the first answer without more to come.
pub open spec fn is_cursor_walk(
    pages: Seq<PageView>,
    rows: Seq<RowView>,
    filters: Seq<(Seq<char>, Seq<char>)>,
    limit: int,
) -> bool {
    &&& pages.len() > 0
    &&& forall|k: int|
        0 <= k < pages.len() ==> is_answer(
            #[trigger] pages[k],
            rows,
            filters,
            limit,
            start_by_text(pages, k),
        )
    &&& forall|k: int| 0 <= k < pages.len() ==> ((#[trigger] pages[k]).has_more <==> k < pages.len() - 1)
}

/// Following the cursors is a walk: the cursor decoded from the
/// `next_cursor` of an answer is the cursor that names its last record.
pub proof fn law_cursor_walk_is_walk(
    pages: Seq<PageView>,
    rows: Seq<RowView>,
    filters: Seq<(Seq<char>, Seq<char>)>,
    limit: int,
)
    requires
        is_cursor_walk(pages, rows, filters, limit),
    ensures
        is_walk(pages, rows, filters, limit),
{
    assert forall|k: int| 0 <= k < pages.len() implies is_page(
        (#[trigger] pages[k]).items,
        pages[k].has_more,
        rows,
        filters,
        limit,
        start_of(pages, k),
    ) by {
        assert(is_answer(pages[k], rows, filters, limit, start_by_text(pages, k)));
        if k > 0 {
            let before = pages[k - 1];
            assert(is_answer(before, rows, filters, limit, start_by_text(pages, k - 1)));
            assert(before.has_more);
            assert(start_by_text(pages, k) == cursor_behind(before.items));
        }
    }
}

/// Pagination by cursors is complete and without overlap: on a fixed
/// index and with fixed filters, the answers that a caller gets who follows
/// `next_cursor` until there is no more to come list, one after the other,
/// exactly the records of the result, each once, in listing order.
pub proof fn law_following_cursors_lists_result(
    pages: Seq<PageView>,
    rows: Seq<RowView>,
    filters: Seq<(Seq<char>, Seq<char>)>,
    limit: int,
)
    requires
        limit >= 1,
        is_cursor_walk(pages, rows, filters, limit),
    ensures
        forall|i: int, j: int|
            0 <= i < j < walked(pages).len() ==> precedes(
                #[trigger] walked(pages)[i],
                #[trigger] walked(pages)[j],
            ),
        walked(pages).no_duplicates(),
        forall|e: RecordView| walked(pages).contains(e) <==> #[trigger] is_result(rows, filters, e),
        lists_matching_items(walked(pages), rows, filters),
{
    law_cursor_walk_is_walk(pages, rows, filters, limit);
    law_walk_lists_result(pages, rows, filters, limit);
    law_walk_lists_matching_items(pages, rows, filters, limit);
}

} // verus!
