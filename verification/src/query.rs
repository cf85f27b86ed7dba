//! The tag query: its page types, the statement that asks the index
//! backend for one page, and the assembly of a page from the rows that
//! came back.

use crate::cursor::{
    cursor_of, cursor_text, encode_tag_query_cursor, CursorError, CursorView, TagQueryCursor,
};
use crate::tags::{normalize_tags, normalized, pairs};
use crate::text::{decimal, decimal_text, escape_single, escaped};
use crate::time::{
    backend_instant, format_instant, instant_text, parse_clickhouse_datetime, Timestamp,
};
use vstd::prelude::*;
use vstd::string::StringExecFns;

verus! {

/// Page size where the caller names none.
pub const DEFAULT_PAGE_SIZE: usize = 25;

/// Largest page size.
pub const MAX_PAGE_SIZE: usize = 100;

/// One item of a query result: its id, a content type under which it was
/// indexed, and the latest time at which it was indexed under the filters.
#[derive(Debug, Clone, PartialEq, Eq)]
pub struct DataitemRecord {
    pub dataitem_id: String,
    pub content_type: String,
    pub created_at: Timestamp,
}

/// Which page is asked for: its size and the cursor it starts behind.
#[derive(Debug, Clone, PartialEq, Eq)]
pub struct TagQueryPagination {
    pub first: usize,
    pub after: Option<TagQueryCursor>,
}

/// One page of a query result.
#[derive(Debug, Clone, PartialEq, Eq)]
pub struct TagQueryPage {
    pub items: Vec<DataitemRecord>,
    pub has_more: bool,
    pub next_cursor: Option<String>,
}

/// A record as plain values.
pub struct RecordView {
    pub dataitem_id: Seq<char>,
    pub content_type: Seq<char>,
    pub created_at: Timestamp,
}

impl View for DataitemRecord {
    type V = RecordView;

    open spec fn view(&self) -> RecordView {
        RecordView {
            dataitem_id: self.dataitem_id@,
            content_type: self.content_type@,
            created_at: self.created_at,
        }
    }
}

/// The views of a list of records.
pub open spec fn records(v: Seq<DataitemRecord>) -> Seq<RecordView> {
    Seq::new(v.len(), |i: int| v[i]@)
}

/// A page as plain values.
pub struct PageView {
    pub items: Seq<RecordView>,
    pub has_more: bool,
    pub next_cursor: Option<Seq<char>>,
}

impl View for TagQueryPage {
    type V = PageView;

    open spec fn view(&self) -> PageView {
        PageView {
            items: records(self.items@),
            has_more: self.has_more,
            next_cursor: match self.next_cursor {
                Some(c) => Some(c@),
                None => None,
            },
        }
    }
}

/// The view of an optional cursor.
pub open spec fn cursor_view(after: Option<TagQueryCursor>) -> Option<CursorView> {
    match after {
        Some(c) => Some(c@),
        None => None,
    }
}

/// The page without items.
pub open spec fn empty_page_view() -> PageView {
    PageView { items: Seq::empty(), has_more: false, next_cursor: None }
}

/// The page size that is served for a requested one: at least 1 and at
/// most `MAX_PAGE_SIZE`.
pub open spec fn served_page_size(first: usize) -> usize {
    if first < 1 {
        1
    } else if first > MAX_PAGE_SIZE {
        MAX_PAGE_SIZE
    } else {
        first
    }
}

/// The page size that is served for a requested one.
pub fn page_limit(first: usize) -> (limit: usize)
    ensures
        limit == served_page_size(first),
        1 <= limit <= MAX_PAGE_SIZE,
{
    if first < 1 {
        1
    } else if first > MAX_PAGE_SIZE {
        MAX_PAGE_SIZE
    } else {
        first
    }
}

/// The page without items.
pub fn empty_page() -> (page: TagQueryPage)
    ensures
        page@ == empty_page_view(),
{
    let page = TagQueryPage { items: Vec::new(), has_more: false, next_cursor: None };
    assert(page@.items == Seq::<RecordView>::empty());
    page
}

/// The statement that creates the table of the index. Rows with one
/// `(tag_key, tag_value, dataitem_id)` are merged to the one with the latest
/// `created_at`.
pub fn table_ddl() -> (statement: &'static str)
    ensures
        statement@
            == "CREATE TABLE IF NOT EXISTS dataitem_tags (dataitem_id String, content_type String, created_at DateTime64(3, 'UTC'), tag_key String, tag_value String) ENGINE = ReplacingMergeTree(created_at) ORDER BY (tag_key, tag_value, dataitem_id)"@,
{
    "CREATE TABLE IF NOT EXISTS dataitem_tags (dataitem_id String, content_type String, created_at DateTime64(3, 'UTC'), tag_key String, tag_value String) ENGINE = ReplacingMergeTree(created_at) ORDER BY (tag_key, tag_value, dataitem_id)"
}

/// The statement that inserts one row of the index; its five parameters
/// are bound in the order of the columns.
pub fn insert_statement() -> (statement: &'static str)
    ensures
        statement@
            == "INSERT INTO dataitem_tags (dataitem_id, content_type, created_at, tag_key, tag_value) VALUES (?, ?, ?, ?, ?)"@,
{
    "INSERT INTO dataitem_tags (dataitem_id, content_type, created_at, tag_key, tag_value) VALUES (?, ?, ?, ?, ?)"
}

/// One filter as a tuple of two quoted literals.
pub open spec fn filter_tuple(filter: (Seq<char>, Seq<char>)) -> Seq<char> {
    "('"@ + escaped(filter.0) + "','"@ + escaped(filter.1) + "')"@
}

/// The filters as tuples, separated by a comma and a space.
pub open spec fn filter_tuples(filters: Seq<(Seq<char>, Seq<char>)>) -> Seq<char>
    decreases filters.len(),
{
    if filters.len() == 0 {
        Seq::empty()
    } else if filters.len() == 1 {
        filter_tuple(filters.last())
    } else {
        filter_tuples(filters.drop_last()) + ", "@ + filter_tuple(filters.last())
    }
}

/// The condition that holds of the rows behind a cursor, in the order by
/// time and id, both descending. `stamp` is the cursor's time as text.
pub open spec fn cursor_condition(stamp: Seq<char>, dataitem_id: Seq<char>) -> Seq<char> {
    let instant = "toDateTime64('"@ + stamp + "', 3, 'UTC')"@;
    "(created_at < "@ + instant + ") OR (created_at = "@ + instant + " AND dataitem_id < '"@
        + escaped(dataitem_id) + "')"@
}

/// The statement that asks for the first `fetch` items, behind the cursor
/// where there is a condition, which have a row for every one of the filters.
pub open spec fn query_text(
    filters: Seq<(Seq<char>, Seq<char>)>,
    fetch: nat,
    condition: Option<Seq<char>>,
) -> Seq<char> {
    let aggregated =
        "SELECT dataitem_id, content_type, created_at FROM (SELECT dataitem_id, any(content_type) AS content_type, max(created_at) AS created_at FROM dataitem_tags WHERE (tag_key, tag_value) IN ("@
        + filter_tuples(filters) + ") GROUP BY dataitem_id HAVING countDistinct(tag_key, tag_value) = "@
        + decimal(filters.len()) + ") AS aggregated"@;
    let selected = match condition {
        Some(c) => aggregated + " WHERE "@ + c,
        None => aggregated,
    };
    selected + " ORDER BY created_at DESC, dataitem_id DESC LIMIT "@ + decimal(fetch)
        + " FORMAT JSON"@
}

/// One filter as a tuple of two quoted literals.
pub fn filter_tuple_text(key: &str, value: &str) -> (out: String)
    ensures
        out@ == filter_tuple((key@, value@)),
{
    let mut out = String::new();
    out.append("('");
    let k = escape_single(key);
    out.append(k.as_str());
    out.append("','");
    let v = escape_single(value);
    out.append(v.as_str());
    out.append("')");
    assert(out@ == filter_tuple((key@, value@))) by {
        assert(Seq::<char>::empty() + "('"@ == "('"@);
    }
    out
}

/// The filters as tuples, separated by a comma and a space.
pub fn filter_tuples_text(filters: &Vec<(String, String)>) -> (out: String)
    ensures
        out@ == filter_tuples(pairs(filters@)),
{
    let mut out = String::new();
    let mut i: usize = 0;
    proof {
        assert(pairs(filters@).take(0) == Seq::<(Seq<char>, Seq<char>)>::empty());
    }
    while i < filters.len()
        invariant
            i <= filters.len(),
            out@ == filter_tuples(pairs(filters@).take(i as int)),
        decreases filters.len() - i,
    {
        proof {
            let all = pairs(filters@);
            assert(all.take(i + 1).drop_last() == all.take(i as int));
            assert(all.take(i + 1).last() == (filters@[i as int].0@, filters@[i as int].1@));
            assert(Seq::<char>::empty() + filter_tuple(all.take(i + 1).last()) == filter_tuple(
                all.take(i + 1).last(),
            ));
        }
        if i > 0 {
            out.append(", ");
        }
        let t = filter_tuple_text(filters[i].0.as_str(), filters[i].1.as_str());
        out.append(t.as_str());
        i = i + 1;
    }
    proof {
        assert(pairs(filters@).take(filters.len() as int) == pairs(filters@));
    }
    out
}

/// The condition that holds of the rows behind a cursor.
pub fn cursor_condition_text(stamp: &str, dataitem_id: &str) -> (out: String)
    ensures
        out@ == cursor_condition(stamp@, dataitem_id@),
{
    let mut instant = String::new();
    instant.append("toDateTime64('");
    instant.append(stamp);
    instant.append("', 3, 'UTC')");
    assert(instant@ == "toDateTime64('"@ + stamp@ + "', 3, 'UTC')"@) by {
        assert(Seq::<char>::empty() + "toDateTime64('"@ == "toDateTime64('"@);
    }
    let id = escape_single(dataitem_id);
    let mut out = String::new();
    out.append("(created_at < ");
    out.append(instant.as_str());
    out.append(") OR (created_at = ");
    out.append(instant.as_str());
    out.append(" AND dataitem_id < '");
    out.append(id.as_str());
    out.append("')");
    assert(out@ == cursor_condition(stamp@, dataitem_id@)) by {
        assert(Seq::<char>::empty() + "(created_at < "@ == "(created_at < "@);
    }
    out
}

/// The view of an optional string.
pub open spec fn condition_view(condition: Option<String>) -> Option<Seq<char>> {
    match condition {
        Some(c) => Some(c@),
        None => None,
    }
}

/// The statement that asks the index backend for the first `fetch` items
/// that have a row for every one of the filters, behind the cursor where
/// a condition is given.
pub fn query_statement(filters: &Vec<(String, String)>, fetch: usize, condition: Option<String>) -> (out:
    String)
    ensures
        out@ == query_text(pairs(filters@), fetch as nat, condition_view(condition)),
{
    let mut out = String::new();
    out.append(
        "SELECT dataitem_id, content_type, created_at FROM (SELECT dataitem_id, any(content_type) AS content_type, max(created_at) AS created_at FROM dataitem_tags WHERE (tag_key, tag_value) IN (",
    );
    let tuples = filter_tuples_text(filters);
    out.append(tuples.as_str());
    out.append(") GROUP BY dataitem_id HAVING countDistinct(tag_key, tag_value) = ");
    let expected = decimal_text(filters.len());
    out.append(expected.as_str());
    out.append(") AS aggregated");
    proof {
        assert(Seq::<char>::empty()
            + "SELECT dataitem_id, content_type, created_at FROM (SELECT dataitem_id, any(content_type) AS content_type, max(created_at) AS created_at FROM dataitem_tags WHERE (tag_key, tag_value) IN ("@
            == "SELECT dataitem_id, content_type, created_at FROM (SELECT dataitem_id, any(content_type) AS content_type, max(created_at) AS created_at FROM dataitem_tags WHERE (tag_key, tag_value) IN ("@);
        assert(pairs(filters@).len() == filters.len());
    }
    match condition {
        Some(c) => {
            out.append(" WHERE ");
            out.append(c.as_str());
        },
        None => {},
    }
    out.append(" ORDER BY created_at DESC, dataitem_id DESC LIMIT ");
    let limit = decimal_text(fetch);
    out.append(limit.as_str());
    out.append(" FORMAT JSON");
    out
}

/// What is to be done for a query.
#[derive(Debug, Clone, PartialEq, Eq)]
pub enum QueryPlan {
    /// No filter is left: the answer is the empty page, and the backend is
    /// not asked.
    Empty,
    /// The backend is asked with `statement`; the page holds at most
    /// `limit` of the rows that come back.
    Ask { statement: String, limit: usize },
}

/// A plan as plain values.
pub enum PlanView {
    Empty,
    Ask { statement: Seq<char>, limit: usize },
}

impl View for QueryPlan {
    type V = PlanView;

    open spec fn view(&self) -> PlanView {
        match self {
            QueryPlan::Empty => PlanView::Empty,
            QueryPlan::Ask { statement, limit } => PlanView::Ask {
                statement: statement@,
                limit: *limit,
            },
        }
    }
}

/// The time of a cursor as the statement writes it: date, time and
/// milliseconds, by the pattern `%Y-%m-%d %H:%M:%S%.3f`.
pub open spec fn cursor_stamp(at: Timestamp) -> Option<Seq<char>> {
    instant_text(at.secs, at.nanos, "%Y-%m-%d %H:%M:%S%.3f"@)
}

/// The plan for a query with the given filters, page size and cursor. The
/// filters are normalised; where none is left the plan is `Empty`. The
/// statement asks for one row more than the page holds. A cursor whose time
/// cannot be written is refused.
pub open spec fn planned(
    filters: Seq<(Seq<char>, Seq<char>)>,
    first: usize,
    after: Option<CursorView>,
) -> Result<PlanView, CursorError> {
    let normal = normalized(filters);
    let limit = served_page_size(first);
    if normal.len() == 0 {
        Ok(PlanView::Empty)
    } else {
        match after {
            None => Ok(
                PlanView::Ask { statement: query_text(normal, (limit + 1) as nat, None), limit },
            ),
            Some(c) => match cursor_stamp(c.created_at) {
                None => Err(CursorError::Timestamp),
                Some(stamp) => Ok(
                    PlanView::Ask {
                        statement: query_text(
                            normal,
                            (limit + 1) as nat,
                            Some(cursor_condition(stamp, c.dataitem_id)),
                        ),
                        limit,
                    },
                ),
            },
        }
    }
}

/// The view of a plan, or the fault.
pub open spec fn plan_view(r: Result<QueryPlan, CursorError>) -> Result<PlanView, CursorError> {
    match r {
        Ok(p) => Ok(p@),
        Err(e) => Err(e),
    }
}

/// Plans a query: decides whether the backend is asked at all, and with
/// which statement.
pub fn plan_tag_query(filters: &[(String, String)], pagination: &TagQueryPagination) -> (r: Result<
    QueryPlan,
    CursorError,
>)
    ensures
        plan_view(r) == planned(pairs(filters@), pagination.first, cursor_view(pagination.after)),
        filters@.len() == 0 ==> r == Ok::<QueryPlan, CursorError>(QueryPlan::Empty),
{
    if filters.len() == 0 {
        assert(pairs(filters@) == Seq::<(Seq<char>, Seq<char>)>::empty());
        return Ok(QueryPlan::Empty);
    }
    let normal = normalize_tags(filters);
    if normal.len() == 0 {
        assert(pairs(normal@).len() == normal.len());
        return Ok(QueryPlan::Empty);
    }
    assert(pairs(normal@).len() == normal.len());
    let limit = page_limit(pagination.first);
    let condition = match &pagination.after {
        None => None,
        Some(cursor) => match format_instant(cursor.created_at, "%Y-%m-%d %H:%M:%S%.3f") {
            None => {
                return Err(CursorError::Timestamp);
            },
            Some(stamp) => Some(cursor_condition_text(stamp.as_str(), cursor.dataitem_id.as_str())),
        },
    };
    let statement = query_statement(&normal, limit + 1, condition);
    Ok(QueryPlan::Ask { statement, limit })
}

/// The record for a row that the backend returned, its time read from the
/// backend's date-time text; `None` where that text cannot be read.
pub fn record_from_row(dataitem_id: String, content_type: String, created_at: &str) -> (r: Option<
    DataitemRecord,
>)
    ensures
        match r {
            Some(record) => backend_instant(created_at@) == Some(
                (record.created_at.secs, record.created_at.nanos),
            ) && record.dataitem_id == dataitem_id && record.content_type == content_type,
            None => backend_instant(created_at@) is None,
        },
{
    match parse_clickhouse_datetime(created_at) {
        Some(at) => Some(DataitemRecord { dataitem_id, content_type, created_at: at }),
        None => None,
    }
}

/// The page that is made of the rows fetched for a page of at most
/// `limit` items: the first `limit` rows; more rows than that show that
/// there is a further page, and the cursor then names the last row kept.
pub open spec fn assembled(rows: Seq<RecordView>, limit: usize) -> Result<PageView, CursorError> {
    if rows.len() <= limit {
        Ok(PageView { items: rows, has_more: false, next_cursor: None })
    } else if limit == 0 {
        Ok(PageView { items: Seq::empty(), has_more: true, next_cursor: None })
    } else {
        let last = rows[limit - 1];
        match cursor_text(last.created_at, last.dataitem_id) {
            Ok(text) => Ok(
                PageView { items: rows.take(limit as int), has_more: true, next_cursor: Some(text) },
            ),
            Err(e) => Err(e),
        }
    }
}

/// The view of a page, or the fault.
pub open spec fn page_view(r: Result<TagQueryPage, CursorError>) -> Result<PageView, CursorError> {
    match r {
        Ok(p) => Ok(p@),
        Err(e) => Err(e),
    }
}

/// Makes a page of the rows fetched for it. The cursor of a page decodes
/// to the time and id of the last row that the page keeps.
pub fn assemble_page(rows: Vec<DataitemRecord>, limit: usize) -> (r: Result<
    TagQueryPage,
    CursorError,
>)
    ensures
        page_view(r) == assembled(records(rows@), limit),
        r matches Ok(page) ==> (page.next_cursor matches Some(text) ==> cursor_of(text@) == Ok::<
            CursorView,
            CursorError,
        >(
            CursorView {
                created_at: records(rows@)[limit - 1].created_at,
                dataitem_id: records(rows@)[limit - 1].dataitem_id,
            },
        )),
{
    let mut items = rows;
    let has_more = items.len() > limit;
    if !has_more {
        return Ok(TagQueryPage { items, has_more: false, next_cursor: None });
    }
    items.truncate(limit);
    assert(records(items@) == records(rows@).take(limit as int));
    if limit == 0 {
        assert(records(items@) == Seq::<RecordView>::empty());
        return Ok(TagQueryPage { items, has_more: true, next_cursor: None });
    }
    let last = &items[limit - 1];
    assert(last@ == records(rows@)[limit - 1]);
    match encode_tag_query_cursor(last.created_at, last.dataitem_id.as_str()) {
        Ok(text) => Ok(TagQueryPage { items, has_more: true, next_cursor: Some(text) }),
        Err(e) => Err(e),
    }
}

} // verus!
