//! The tag index: an append-only list of rows, one for each tag of each
//! indexing of an item, and the query that finds the items which carry
//! every one of a set of tags.
//!
//! The result of a query has one record for each matching item. The
//! records are listed by time and then by id, both descending, and served
//! in pages; a cursor names the last record of a page.
//!
//! The index here is held in memory. It is the model in which the laws of
//! indexing and of pagination are stated and proved. An index backend is
//! asked with the statement of the `query` module instead; that a backend's
//! answer to that statement is the page described here is not proved.

use crate::cursor::CursorView;
use crate::query::{DataitemRecord, RecordView, records};
use crate::tags::{contains_pair, normalize_tags, normalized, pairs};
use crate::text::{str_eq, text_less};
use crate::time::{earlier, Timestamp};
use vstd::prelude::*;

verus! {

/// One row of the index: an item was indexed at `created_at` with the
/// given content type and the tag `(tag_key, tag_value)`.
#[derive(Debug, Clone, PartialEq, Eq)]
pub struct IndexRow {
    pub dataitem_id: String,
    pub content_type: String,
    pub created_at: Timestamp,
    pub tag_key: String,
    pub tag_value: String,
}

/// A row as plain values.
pub struct RowView {
    pub dataitem_id: Seq<char>,
    pub content_type: Seq<char>,
    pub created_at: Timestamp,
    pub tag_key: Seq<char>,
    pub tag_value: Seq<char>,
}

impl View for IndexRow {
    type V = RowView;

    open spec fn view(&self) -> RowView {
        RowView {
            dataitem_id: self.dataitem_id@,
            content_type: self.content_type@,
            created_at: self.created_at,
            tag_key: self.tag_key@,
            tag_value: self.tag_value@,
        }
    }
}

/// The views of a list of rows.
pub open spec fn row_views(v: Seq<IndexRow>) -> Seq<RowView> {
    Seq::new(v.len(), |i: int| v[i]@)
}

/// Whether a row belongs to the item and carries one of the filters.
pub open spec fn is_hit(row: RowView, id: Seq<char>, filters: Seq<(Seq<char>, Seq<char>)>) -> bool {
    row.dataitem_id == id && filters.contains((row.tag_key, row.tag_value))
}

/// Whether the index has a row of the item with the tag `filter`.
pub open spec fn has_row(rows: Seq<RowView>, id: Seq<char>, filter: (Seq<char>, Seq<char>)) -> bool {
    exists|i: int|
        0 <= i < rows.len() && (#[trigger] rows[i]).dataitem_id == id && (
            rows[i].tag_key,
            rows[i].tag_value,
        ) == filter
}

/// Whether the item matches: there is a filter, and the index has a row of
/// the item for every filter.
pub open spec fn item_matches(rows: Seq<RowView>, id: Seq<char>, filters: Seq<(Seq<char>, Seq<char>)>) -> bool {
    filters.len() > 0 && forall|k: int|
        0 <= k < filters.len() ==> has_row(rows, id, #[trigger] filters[k])
}

/// The position of the latest row of the item that carries one of the
/// filters; of rows with the same time the first counts.
pub open spec fn latest_hit(rows: Seq<RowView>, id: Seq<char>, filters: Seq<(Seq<char>, Seq<char>)>) -> Option<int>
    decreases rows.len(),
{
    if rows.len() == 0 {
        None
    } else {
        let before = latest_hit(rows.drop_last(), id, filters);
        if !is_hit(rows.last(), id, filters) {
            before
        } else {
            match before {
                Some(p) => if earlier(rows[p].created_at, rows.last().created_at) {
                    Some(rows.len() - 1)
                } else {
                    Some(p)
                },
                None => Some(rows.len() - 1),
            }
        }
    }
}

/// The record of an item in the result of a query: its time and content
/// type are those of the latest row that carries one of the filters.
pub open spec fn summary(rows: Seq<RowView>, id: Seq<char>, filters: Seq<(Seq<char>, Seq<char>)>) -> RecordView {
    let p = latest_hit(rows, id, filters).unwrap();
    RecordView {
        dataitem_id: id,
        content_type: rows[p].content_type,
        created_at: rows[p].created_at,
    }
}

/// Whether `e` is a record of the result: its item matches, and it is
/// the record of that item.
pub open spec fn is_result(rows: Seq<RowView>, filters: Seq<(Seq<char>, Seq<char>)>, e: RecordView) -> bool {
    item_matches(rows, e.dataitem_id, filters) && e == summary(rows, e.dataitem_id, filters)
}

/// Whether the key `(a_at, a_id)` is listed before the key `(b_at, b_id)`:
/// the later time first, and of equal times the greater id first.
pub open spec fn key_before(a_at: Timestamp, a_id: Seq<char>, b_at: Timestamp, b_id: Seq<char>) -> bool {
    earlier(b_at, a_at) || (a_at == b_at && text_less(b_id, a_id))
}

/// Whether the record `a` is listed before the record `b`.
pub open spec fn precedes(a: RecordView, b: RecordView) -> bool {
    key_before(a.created_at, a.dataitem_id, b.created_at, b.dataitem_id)
}

/// Whether the record is listed strictly behind the cursor. Without a
/// cursor every record is.
pub open spec fn behind(e: RecordView, after: Option<CursorView>) -> bool {
    match after {
        None => true,
        Some(c) => key_before(c.created_at, c.dataitem_id, e.created_at, e.dataitem_id),
    }
}

/// Whether `e` is a record of the result that a page behind the cursor
/// may hold.
pub open spec fn is_eligible(
    rows: Seq<RowView>,
    filters: Seq<(Seq<char>, Seq<char>)>,
    after: Option<CursorView>,
    e: RecordView,
) -> bool {
    is_result(rows, filters, e) && behind(e, after)
}

/// Whether `items` and `has_more` are the page of at most `limit` records
/// behind the cursor: the items are records of the result behind the
/// cursor, in listing order; every such record that the page lacks is
/// listed behind the last item, and `has_more` says whether there is
/// one; a page with more to come is full.
pub open spec fn is_page(
    items: Seq<RecordView>,
    has_more: bool,
    rows: Seq<RowView>,
    filters: Seq<(Seq<char>, Seq<char>)>,
    limit: int,
    after: Option<CursorView>,
) -> bool {
    &&& items.len() <= limit
    &&& forall|i: int|
        0 <= i < items.len() ==> is_eligible(rows, filters, after, #[trigger] items[i])
    &&& forall|i: int, j: int|
        0 <= i < j < items.len() ==> precedes(#[trigger] items[i], #[trigger] items[j])
    &&& has_more ==> items.len() == limit
    &&& forall|e: RecordView| #[trigger]
        is_eligible(rows, filters, after, e) && !items.contains(e) ==> has_more && (items.len()
            > 0 ==> precedes(items.last(), e))
    &&& has_more ==> exists|e: RecordView| #[trigger]
        is_eligible(rows, filters, after, e) && !items.contains(e)
}

/// The rows that one indexing of an item adds: one for each tag, in the
/// order of the tags.
pub open spec fn rows_for(
    id: Seq<char>,
    content_type: Seq<char>,
    tags: Seq<(Seq<char>, Seq<char>)>,
    at: Timestamp,
) -> Seq<RowView> {
    Seq::new(
        tags.len(),
        |i: int|
            RowView {
                dataitem_id: id,
                content_type: content_type,
                created_at: at,
                tag_key: tags[i].0,
                tag_value: tags[i].1,
            },
    )
}

/// The index after an item was indexed with the given candidates: the
/// rows for the normal form of the candidates come behind the others.
pub open spec fn indexed(
    rows: Seq<RowView>,
    id: Seq<char>,
    content_type: Seq<char>,
    tags: Seq<(Seq<char>, Seq<char>)>,
    at: Timestamp,
) -> Seq<RowView> {
    rows + rows_for(id, content_type, normalized(tags), at)
}

/// What `latest_hit` finds: a row that carries one of the filters, no
/// earlier than any other such row of the item, and the first of those
/// with its time; nothing where the item has no such row.
pub proof fn lemma_latest_hit(rows: Seq<RowView>, id: Seq<char>, filters: Seq<(Seq<char>, Seq<char>)>)
    ensures
        match latest_hit(rows, id, filters) {
            Some(p) => {
                &&& 0 <= p < rows.len()
                &&& is_hit(rows[p], id, filters)
                &&& forall|j: int|
                    0 <= j < rows.len() && is_hit(#[trigger] rows[j], id, filters) ==> !earlier(
                        rows[p].created_at,
                        rows[j].created_at,
                    )
            },
            None => forall|j: int| 0 <= j < rows.len() ==> !is_hit(#[trigger] rows[j], id, filters),
        },
    decreases rows.len(),
{
    if rows.len() > 0 {
        let front = rows.drop_last();
        lemma_latest_hit(front, id, filters);
        assert forall|j: int| 0 <= j < front.len() implies front[j] == rows[j] by {}
        match latest_hit(rows, id, filters) {
            Some(p) => {
                assert forall|j: int|
                    0 <= j < rows.len() && is_hit(#[trigger] rows[j], id, filters) implies !earlier(
                    rows[p].created_at,
                    rows[j].created_at,
                ) by {
                    if j < front.len() {
                        assert(front[j] == rows[j]);
                    }
                }
            },
            None => {
                assert forall|j: int| 0 <= j < rows.len() implies !is_hit(
                    #[trigger] rows[j],
                    id,
                    filters,
                ) by {
                    if j < front.len() {
                        assert(front[j] == rows[j]);
                    }
                }
            },
        }
    }
}

/// The tag index.
#[derive(Debug, Clone, PartialEq, Eq)]
pub struct TagIndex {
    rows: Vec<IndexRow>,
}

impl View for TagIndex {
    type V = Seq<RowView>;

    closed spec fn view(&self) -> Seq<RowView> {
        row_views(self.rows@)
    }
}

impl TagIndex {
    /// An index without rows.
    pub fn new() -> (index: TagIndex)
        ensures
            index@ == Seq::<RowView>::empty(),
    {
        let index = TagIndex { rows: Vec::new() };
        assert(index@ == Seq::<RowView>::empty());
        index
    }

    /// The number of rows.
    pub fn len(&self) -> (n: usize)
        ensures
            n == self@.len(),
    {
        self.rows.len()
    }

    /// The rows, in the order in which they were added.
    pub fn rows(&self) -> (rows: &Vec<IndexRow>)
        ensures
            row_views(rows@) == self@,
    {
        &self.rows
    }
}

/// Whether the rows hold one of the item with the tag `(key, value)`.
pub fn has_tag_row(rows: &Vec<IndexRow>, id: &str, key: &str, value: &str) -> (r: bool)
    ensures
        r == has_row(row_views(rows@), id@, (key@, value@)),
{
    let mut i: usize = 0;
    while i < rows.len()
        invariant
            i <= rows.len(),
            forall|j: int|
                0 <= j < i ==> !((#[trigger] row_views(rows@)[j]).dataitem_id == id@ && (
                    row_views(rows@)[j].tag_key,
                    row_views(rows@)[j].tag_value,
                ) == (key@, value@)),
        decreases rows.len() - i,
    {
        let row = &rows[i];
        assert(row_views(rows@)[i as int] == row@);
        if str_eq(row.dataitem_id.as_str(), id) && str_eq(row.tag_key.as_str(), key) && str_eq(
            row.tag_value.as_str(),
            value,
        ) {
            return true;
        }
        i = i + 1;
    }
    false
}

/// Whether the rows hold one of the item for every filter, and there is a
/// filter.
pub fn matches_filters(rows: &Vec<IndexRow>, id: &str, filters: &Vec<(String, String)>) -> (r: bool)
    ensures
        r == item_matches(row_views(rows@), id@, pairs(filters@)),
{
    if filters.len() == 0 {
        return false;
    }
    let mut k: usize = 0;
    while k < filters.len()
        invariant
            k <= filters.len(),
            pairs(filters@).len() == filters.len(),
            forall|j: int|
                0 <= j < k ==> has_row(row_views(rows@), id@, #[trigger] pairs(filters@)[j]),
        decreases filters.len() - k,
    {
        assert(pairs(filters@)[k as int] == (filters@[k as int].0@, filters@[k as int].1@));
        if !has_tag_row(rows, id, filters[k].0.as_str(), filters[k].1.as_str()) {
            return false;
        }
        k = k + 1;
    }
    true
}

/// Whether the row belongs to the item and carries one of the filters.
pub fn row_is_hit(row: &IndexRow, id: &str, filters: &Vec<(String, String)>) -> (r: bool)
    ensures
        r == is_hit(row@, id@, pairs(filters@)),
{
    str_eq(row.dataitem_id.as_str(), id) && contains_pair(
        filters,
        row.tag_key.as_str(),
        row.tag_value.as_str(),
    )
}

/// The position of the latest row of the item that carries one of the
/// filters.
pub fn latest_hit_of(rows: &Vec<IndexRow>, id: &str, filters: &Vec<(String, String)>) -> (r: Option<
    usize,
>)
    ensures
        match r {
            Some(p) => latest_hit(row_views(rows@), id@, pairs(filters@)) == Some(p as int),
            None => latest_hit(row_views(rows@), id@, pairs(filters@)) is None,
        },
{
    let mut best: Option<usize> = None;
    let mut i: usize = 0;
    let ghost all = row_views(rows@);
    proof {
        assert(all.take(0) == Seq::<RowView>::empty());
    }
    while i < rows.len()
        invariant
            i <= rows.len(),
            all == row_views(rows@),
            match best {
                Some(p) => p < i && latest_hit(all.take(i as int), id@, pairs(filters@)) == Some(
                    p as int,
                ),
                None => latest_hit(all.take(i as int), id@, pairs(filters@)) is None,
            },
        decreases rows.len() - i,
    {
        proof {
            assert(all.take(i + 1).drop_last() == all.take(i as int));
            assert(all.take(i + 1).last() == rows@[i as int]@);
        }
        if row_is_hit(&rows[i], id, filters) {
            match best {
                Some(p) => {
                    assert(all.take(i + 1)[p as int] == rows@[p as int]@);
                    if rows[p].created_at.is_before(&rows[i].created_at) {
                        best = Some(i);
                    }
                },
                None => {
                    best = Some(i);
                },
            }
        }
        i = i + 1;
    }
    proof {
        assert(all.take(rows.len() as int) == all);
    }
    best
}

/// The rows to add for one indexing of an item at `created_at`: the
/// candidates are normalised, and there is one row for each tag that is
/// left, in the order of the tags. Without such a tag there is no row, and
/// nothing is to be written.
pub fn rows_to_index(
    dataitem_id: &str,
    content_type: &str,
    tags: &[(String, String)],
    created_at: Timestamp,
) -> (rows: Vec<IndexRow>)
    ensures
        row_views(rows@) == rows_for(
            dataitem_id@,
            content_type@,
            normalized(pairs(tags@)),
            created_at,
        ),
{
    let normal = normalize_tags(tags);
    let ghost added = rows_for(dataitem_id@, content_type@, pairs(normal@), created_at);
    let mut rows: Vec<IndexRow> = Vec::new();
    let mut i: usize = 0;
    proof {
        assert(row_views(rows@) == added.take(0));
    }
    while i < normal.len()
        invariant
            i <= normal.len(),
            pairs(normal@) == normalized(pairs(tags@)),
            added == rows_for(dataitem_id@, content_type@, pairs(normal@), created_at),
            row_views(rows@) == added.take(i as int),
        decreases normal.len() - i,
    {
        let row = IndexRow {
            dataitem_id: dataitem_id.to_owned(),
            content_type: content_type.to_owned(),
            created_at,
            tag_key: normal[i].0.clone(),
            tag_value: normal[i].1.clone(),
        };
        proof {
            assert(pairs(normal@)[i as int] == (normal@[i as int].0@, normal@[i as int].1@));
            assert(row@ == added[i as int]);
            assert(added.take(i + 1) == added.take(i as int).push(added[i as int]));
        }
        let ghost before = row_views(rows@);
        rows.push(row);
        assert(row_views(rows@) == before.push(row@));
        i = i + 1;
    }
    proof {
        assert(added.take(normal.len() as int) == added);
    }
    rows
}

/// Records that an item was indexed at `created_at` with the given
/// content type and tag candidates. The candidates are normalised, and one
/// row is added for each tag that is left, behind the rows already there.
pub fn index_dataitem(
    index: &mut TagIndex,
    dataitem_id: &str,
    content_type: &str,
    tags: &[(String, String)],
    created_at: Timestamp,
)
    ensures
        final(index)@ == indexed(
            old(index)@,
            dataitem_id@,
            content_type@,
            pairs(tags@),
            created_at,
        ),
{
    let mut rows = rows_to_index(dataitem_id, content_type, tags, created_at);
    let ghost before = index@;
    let ghost added = row_views(rows@);
    index.rows.append(&mut rows);
    assert(index@ == before + added);
}

/// Whether the list holds a record of the item.
pub fn has_record(list: &Vec<DataitemRecord>, id: &str) -> (r: bool)
    ensures
        r == exists|k: int| 0 <= k < list.len() && (#[trigger] records(list@)[k]).dataitem_id == id@,
{
    let mut k: usize = 0;
    while k < list.len()
        invariant
            k <= list.len(),
            forall|j: int| 0 <= j < k ==> (#[trigger] records(list@)[j]).dataitem_id != id@,
        decreases list.len() - k,
    {
        assert(records(list@)[k as int] == list@[k as int]@);
        if str_eq(list[k].dataitem_id.as_str(), id) {
            return true;
        }
        k = k + 1;
    }
    false
}

/// Whether the records are those of the result of a query, each once.
pub open spec fn is_result_list(
    list: Seq<RecordView>,
    rows: Seq<RowView>,
    filters: Seq<(Seq<char>, Seq<char>)>,
) -> bool {
    &&& forall|k: int| 0 <= k < list.len() ==> is_result(rows, filters, #[trigger] list[k])
    &&& forall|i: int, j: int|
        0 <= i < j < list.len() ==> (#[trigger] list[i]).dataitem_id != (#[trigger] list[j]).dataitem_id
    &&& forall|e: RecordView| #[trigger] is_result(rows, filters, e) ==> list.contains(e)
}

/// The records of the result of a query: one for each item that has a
/// row for every filter, in the order in which the items first occur.
pub fn collect_results(rows: &Vec<IndexRow>, filters: &Vec<(String, String)>) -> (out: Vec<
    DataitemRecord,
>)
    ensures
        is_result_list(records(out@), row_views(rows@), pairs(filters@)),
{
    let ghost rv = row_views(rows@);
    let ghost fv = pairs(filters@);
    let mut out: Vec<DataitemRecord> = Vec::new();
    let mut i: usize = 0;
    while i < rows.len()
        invariant
            i <= rows.len(),
            rv == row_views(rows@),
            fv == pairs(filters@),
            forall|k: int| 0 <= k < out.len() ==> is_result(rv, fv, #[trigger] records(out@)[k]),
            forall|a: int, b: int|
                0 <= a < b < out.len() ==> (#[trigger] records(out@)[a]).dataitem_id != (
                #[trigger] records(out@)[b]).dataitem_id,
            forall|j: int|
                0 <= j < i && is_hit(#[trigger] rv[j], rv[j].dataitem_id, fv) && item_matches(
                    rv,
                    rv[j].dataitem_id,
                    fv,
                ) ==> exists|k: int|
                    0 <= k < out.len() && (#[trigger] records(out@)[k]).dataitem_id
                        == rv[j].dataitem_id,
        decreases rows.len() - i,
    {
        let row = &rows[i];
        assert(rv[i as int] == row@);
        let id = row.dataitem_id.as_str();
        let ghost before = records(out@);
        if row_is_hit(row, id, filters) && !has_record(&out, id) && matches_filters(
            rows,
            id,
            filters,
        ) {
            proof {
                lemma_latest_hit(rv, id@, fv);
            }
            match latest_hit_of(rows, id, filters) {
                Some(p) => {
                    let latest = &rows[p];
                    assert(rv[p as int] == latest@);
                    let record = DataitemRecord {
                        dataitem_id: row.dataitem_id.clone(),
                        content_type: latest.content_type.clone(),
                        created_at: latest.created_at,
                    };
                    assert(record@ == summary(rv, id@, fv));
                    out.push(record);
                    proof {
                        let after = records(out@);
                        assert(after == before.push(record@));
                        assert forall|k: int| 0 <= k < after.len() implies is_result(
                            rv,
                            fv,
                            #[trigger] after[k],
                        ) by {
                            if k < before.len() {
                                assert(after[k] == before[k]);
                            }
                        }
                        assert forall|a: int, b: int| 0 <= a < b < after.len() implies (
                        #[trigger] after[a]).dataitem_id != (#[trigger] after[b]).dataitem_id by {
                            assert(after[a] == before[a]);
                            if b < before.len() {
                                assert(after[b] == before[b]);
                            }
                        }
                        assert forall|j: int|
                            0 <= j < i + 1 && is_hit(#[trigger] rv[j], rv[j].dataitem_id, fv)
                                && item_matches(rv, rv[j].dataitem_id, fv) implies exists|k: int|
                            0 <= k < after.len() && (#[trigger] after[k]).dataitem_id
                                == rv[j].dataitem_id by {
                            if j < i {
                                let k = choose|k: int|
                                    0 <= k < before.len() && (#[trigger] before[k]).dataitem_id
                                        == rv[j].dataitem_id;
                                assert(after[k] == before[k]);
                            } else {
                                assert(after[before.len() as int].dataitem_id == rv[j].dataitem_id);
                            }
                        }
                    }
                },
                None => {
                    assert(false);
                },
            }
        }
        i = i + 1;
    }
    proof {
        let list = records(out@);
        assert forall|e: RecordView| #[trigger] is_result(rv, fv, e) implies list.contains(e) by {
            assert(has_row(rv, e.dataitem_id, fv[0]));
            let j = choose|j: int|
                0 <= j < rv.len() && (#[trigger] rv[j]).dataitem_id == e.dataitem_id && (
                    rv[j].tag_key,
                    rv[j].tag_value,
                ) == fv[0];
            assert(fv.contains(fv[0]));
            assert(is_hit(rv[j], rv[j].dataitem_id, fv));
            let k = choose|k: int|
                0 <= k < list.len() && (#[trigger] list[k]).dataitem_id == rv[j].dataitem_id;
            assert(is_result(rv, fv, list[k]));
            assert(list[k] == e);
        }
    }
    out
}

/// One more row that the index holds already changes neither which items
/// have a row for a tag nor which row is the latest of an item.
pub proof fn lemma_duplicate_row(
    rows: Seq<RowView>,
    row: RowView,
    id: Seq<char>,
    filters: Seq<(Seq<char>, Seq<char>)>,
)
    requires
        rows.contains(row),
    ensures
        forall|filter: (Seq<char>, Seq<char>)| #[trigger]
            has_row(rows.push(row), id, filter) == has_row(rows, id, filter),
        item_matches(rows.push(row), id, filters) == item_matches(rows, id, filters),
        latest_hit(rows.push(row), id, filters) == latest_hit(rows, id, filters),
        latest_hit(rows, id, filters) is Some ==> summary(rows.push(row), id, filters) == summary(
            rows,
            id,
            filters,
        ),
{
    let more = rows.push(row);
    let q = choose|q: int| 0 <= q < rows.len() && rows[q] == row;
    assert forall|filter: (Seq<char>, Seq<char>)| #[trigger]
        has_row(more, id, filter) == has_row(rows, id, filter) by {
        if has_row(rows, id, filter) {
            let i = choose|i: int|
                0 <= i < rows.len() && (#[trigger] rows[i]).dataitem_id == id && (
                    rows[i].tag_key,
                    rows[i].tag_value,
                ) == filter;
            assert(more[i] == rows[i]);
        }
        if has_row(more, id, filter) {
            let i = choose|i: int|
                0 <= i < more.len() && (#[trigger] more[i]).dataitem_id == id && (
                    more[i].tag_key,
                    more[i].tag_value,
                ) == filter;
            if i < rows.len() {
                assert(more[i] == rows[i]);
            } else {
                assert(rows[q] == more[i]);
            }
        }
    }
    assert(more.drop_last() == rows);
    lemma_latest_hit(rows, id, filters);
    if is_hit(row, id, filters) {
        assert(is_hit(rows[q], id, filters));
    }
    match latest_hit(rows, id, filters) {
        Some(p) => {
            assert(more[p] == rows[p]);
        },
        None => {},
    }
}

/// Rows that the index holds already, added once more, change no result:
/// the same items match, and each has the same record.
pub proof fn lemma_duplicate_rows(
    rows: Seq<RowView>,
    extra: Seq<RowView>,
    filters: Seq<(Seq<char>, Seq<char>)>,
    e: RecordView,
)
    requires
        forall|j: int| 0 <= j < extra.len() ==> rows.contains(#[trigger] extra[j]),
    ensures
        is_result(rows + extra, filters, e) == is_result(rows, filters, e),
    decreases extra.len(),
{
    if extra.len() == 0 {
        assert(rows + extra == rows);
    } else {
        let front = extra.drop_last();
        let row = extra.last();
        assert forall|j: int| 0 <= j < front.len() implies rows.contains(#[trigger] front[j]) by {
            assert(front[j] == extra[j]);
        }
        lemma_duplicate_rows(rows, front, filters, e);
        let base = rows + front;
        assert(rows + extra == base.push(row));
        assert(rows.contains(extra[extra.len() - 1]));
        let q = choose|q: int| 0 <= q < rows.len() && rows[q] == row;
        assert(base[q] == row);
        lemma_duplicate_row(base, row, e.dataitem_id, filters);
        lemma_latest_hit(base, e.dataitem_id, filters);
        if item_matches(base, e.dataitem_id, filters) {
            assert(has_row(base, e.dataitem_id, filters[0]));
            let i = choose|i: int|
                0 <= i < base.len() && (#[trigger] base[i]).dataitem_id == e.dataitem_id && (
                    base[i].tag_key,
                    base[i].tag_value,
                ) == filters[0];
            assert(filters.contains(filters[0]));
            assert(is_hit(base[i], e.dataitem_id, filters));
        }
    }
}

/// The index after `n` further indexings of an item with the same content
/// type, candidates and time.
pub open spec fn reindexed(
    rows: Seq<RowView>,
    id: Seq<char>,
    content_type: Seq<char>,
    tags: Seq<(Seq<char>, Seq<char>)>,
    at: Timestamp,
    n: nat,
) -> Seq<RowView>
    decreases n,
{
    if n == 0 {
        rows
    } else {
        indexed(reindexed(rows, id, content_type, tags, at, (n - 1) as nat), id, content_type, tags, at)
    }
}

/// Indexing is idempotent: once an item is indexed, indexing it again
/// with the same content type, tags and time, any number of times, changes
/// the result of no query.
pub proof fn law_reindexing_changes_no_result(
    rows: Seq<RowView>,
    id: Seq<char>,
    content_type: Seq<char>,
    tags: Seq<(Seq<char>, Seq<char>)>,
    at: Timestamp,
    n: nat,
    filters: Seq<(Seq<char>, Seq<char>)>,
    e: RecordView,
)
    ensures
        is_result(
            reindexed(indexed(rows, id, content_type, tags, at), id, content_type, tags, at, n),
            filters,
            e,
        ) == is_result(indexed(rows, id, content_type, tags, at), filters, e),
    decreases n,
{
    if n > 0 {
        let once = indexed(rows, id, content_type, tags, at);
        let block = rows_for(id, content_type, normalized(tags), at);
        let base = reindexed(once, id, content_type, tags, at, (n - 1) as nat);
        law_reindexing_changes_no_result(rows, id, content_type, tags, at, (n - 1) as nat, filters, e);
        lemma_reindexed_holds(once, id, content_type, tags, at, (n - 1) as nat);
        assert forall|j: int| 0 <= j < block.len() implies base.contains(#[trigger] block[j]) by {
            assert(once[rows.len() + j] == block[j]);
            assert(once.contains(block[j]));
        }
        lemma_duplicate_rows(base, block, filters, e);
    }
}

/// Indexing keeps the rows that the index holds.
pub proof fn lemma_reindexed_holds(
    rows: Seq<RowView>,
    id: Seq<char>,
    content_type: Seq<char>,
    tags: Seq<(Seq<char>, Seq<char>)>,
    at: Timestamp,
    n: nat,
)
    ensures
        forall|row: RowView| rows.contains(row) ==> #[trigger] reindexed(
            rows,
            id,
            content_type,
            tags,
            at,
            n,
        ).contains(row),
    decreases n,
{
    if n > 0 {
        lemma_reindexed_holds(rows, id, content_type, tags, at, (n - 1) as nat);
        let base = reindexed(rows, id, content_type, tags, at, (n - 1) as nat);
        let next = reindexed(rows, id, content_type, tags, at, n);
        assert forall|row: RowView| rows.contains(row) implies next.contains(row) by {
            assert(base.contains(row));
            let i = choose|i: int| 0 <= i < base.len() && base[i] == row;
            assert(next[i] == row);
        }
    }
}

/// Indexing an item again with the same tags, at whatever time and with
/// whatever content type, changes the set of items that match no query.
pub proof fn law_reindexing_keeps_matches(
    rows: Seq<RowView>,
    id: Seq<char>,
    content_type: Seq<char>,
    tags: Seq<(Seq<char>, Seq<char>)>,
    at: Timestamp,
    again_content_type: Seq<char>,
    again_at: Timestamp,
    filters: Seq<(Seq<char>, Seq<char>)>,
    item: Seq<char>,
)
    ensures
        item_matches(
            indexed(
                indexed(rows, id, content_type, tags, at),
                id,
                again_content_type,
                tags,
                again_at,
            ),
            item,
            filters,
        ) == item_matches(indexed(rows, id, content_type, tags, at), item, filters),
{
    let once = indexed(rows, id, content_type, tags, at);
    let twice = indexed(once, id, again_content_type, tags, again_at);
    let first = rows_for(id, content_type, normalized(tags), at);
    let second = rows_for(id, again_content_type, normalized(tags), again_at);
    assert forall|filter: (Seq<char>, Seq<char>)| #[trigger]
        has_row(twice, item, filter) == has_row(once, item, filter) by {
        if has_row(once, item, filter) {
            let i = choose|i: int|
                0 <= i < once.len() && (#[trigger] once[i]).dataitem_id == item && (
                    once[i].tag_key,
                    once[i].tag_value,
                ) == filter;
            assert(twice[i] == once[i]);
        }
        if has_row(twice, item, filter) {
            let i = choose|i: int|
                0 <= i < twice.len() && (#[trigger] twice[i]).dataitem_id == item && (
                    twice[i].tag_key,
                    twice[i].tag_value,
                ) == filter;
            if i < once.len() {
                assert(twice[i] == once[i]);
            } else {
                let j = i - once.len();
                assert(twice[i] == second[j]);
                assert(once[rows.len() + j] == first[j]);
            }
        }
    }
}

/// A page depends on the index only through the result of the query.
pub proof fn lemma_page_of_equal_results(
    items: Seq<RecordView>,
    has_more: bool,
    rows: Seq<RowView>,
    other: Seq<RowView>,
    filters: Seq<(Seq<char>, Seq<char>)>,
    limit: int,
    after: Option<CursorView>,
)
    requires
        forall|e: RecordView| #[trigger] is_result(rows, filters, e) == is_result(other, filters, e),
    ensures
        is_page(items, has_more, rows, filters, limit, after) == is_page(
            items,
            has_more,
            other,
            filters,
            limit,
            after,
        ),
{
    assert forall|e: RecordView| #[trigger]
        is_eligible(rows, filters, after, e) == is_eligible(other, filters, after, e) by {
        assert(is_result(rows, filters, e) == is_result(other, filters, e));
    }
    if is_page(items, has_more, rows, filters, limit, after) {
        lemma_page_transfer(items, has_more, rows, other, filters, limit, after);
    }
    if is_page(items, has_more, other, filters, limit, after) {
        lemma_page_transfer(items, has_more, other, rows, filters, limit, after);
    }
}

/// A page of one index is a page of every index with the same result.
proof fn lemma_page_transfer(
    items: Seq<RecordView>,
    has_more: bool,
    rows: Seq<RowView>,
    other: Seq<RowView>,
    filters: Seq<(Seq<char>, Seq<char>)>,
    limit: int,
    after: Option<CursorView>,
)
    requires
        forall|e: RecordView| #[trigger]
            is_eligible(rows, filters, after, e) == is_eligible(other, filters, after, e),
        is_page(items, has_more, rows, filters, limit, after),
    ensures
        is_page(items, has_more, other, filters, limit, after),
{
    assert forall|i: int| 0 <= i < items.len() implies is_eligible(
        other,
        filters,
        after,
        #[trigger] items[i],
    ) by {
        assert(is_eligible(rows, filters, after, items[i]));
    }
    assert forall|e: RecordView| #[trigger]
        is_eligible(other, filters, after, e) && !items.contains(e) implies has_more && (items.len()
        > 0 ==> precedes(items.last(), e)) by {
        assert(is_eligible(rows, filters, after, e));
    }
    if has_more {
        let e = choose|e: RecordView| #[trigger]
            is_eligible(rows, filters, after, e) && !items.contains(e);
        assert(is_eligible(other, filters, after, e));
    }
}

/// Indexing an item again with the same content type, tags and time
/// changes no page of any query.
pub proof fn law_reindexing_changes_no_page(
    rows: Seq<RowView>,
    id: Seq<char>,
    content_type: Seq<char>,
    tags: Seq<(Seq<char>, Seq<char>)>,
    at: Timestamp,
    n: nat,
    filters: Seq<(Seq<char>, Seq<char>)>,
    items: Seq<RecordView>,
    has_more: bool,
    limit: int,
    after: Option<CursorView>,
)
    ensures
        is_page(
            items,
            has_more,
            reindexed(indexed(rows, id, content_type, tags, at), id, content_type, tags, at, n),
            filters,
            limit,
            after,
        ) == is_page(
            items,
            has_more,
            indexed(rows, id, content_type, tags, at),
            filters,
            limit,
            after,
        ),
{
    let once = indexed(rows, id, content_type, tags, at);
    let many = reindexed(once, id, content_type, tags, at, n);
    assert forall|e: RecordView| #[trigger]
        is_result(many, filters, e) == is_result(once, filters, e) by {
        law_reindexing_changes_no_result(rows, id, content_type, tags, at, n, filters, e);
    }
    lemma_page_of_equal_results(items, has_more, many, once, filters, limit, after);
}

} // verus!
