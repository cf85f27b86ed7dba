//! What is asked of a request before it is served: the bearer token, the
//! listed API keys, the page size of a query, and the parts of an upload.

use crate::cursor::{cursor_of, decode_tag_query_cursor, CursorError, CursorView};
use crate::error::ErrorKind;
use crate::query::{
    plan_tag_query, planned, PlanView, QueryPlan, TagQueryPagination, DEFAULT_PAGE_SIZE,
    MAX_PAGE_SIZE,
};
use crate::store::OBJECT_SIZE_LIMIT;
use crate::tags::{pairs, texts};
use crate::text::{str_eq, strip_prefix, trim, trimmed};
use vstd::prelude::*;
use vstd::std_specs::iter::IteratorSpec;

verus! {

/// Why a caller is turned away.
#[derive(Debug, Clone, Copy, PartialEq, Eq, Structural)]
pub enum AuthError {
    /// The request has no `Authorization` header.
    MissingHeader,
    /// The header does not have the form `Bearer <token>`.
    BadFormat,
    /// The token is not a listed key.
    UnknownKey,
}

impl AuthError {
    /// The kind of the failure.
    pub fn kind(&self) -> (kind: ErrorKind)
        ensures
            kind == ErrorKind::Unauthorized,
    {
        ErrorKind::Unauthorized
    }

    /// A short description of the fault.
    pub fn message(&self) -> (text: &'static str)
        ensures
            text@ == match *self {
                AuthError::MissingHeader => "missing Authorization header"@,
                AuthError::BadFormat => "invalid Authorization header format. Expected 'Bearer <token>'"@,
                AuthError::UnknownKey => "invalid API key"@,
            },
    {
        match self {
            AuthError::MissingHeader => "missing Authorization header",
            AuthError::BadFormat => "invalid Authorization header format. Expected 'Bearer <token>'",
            AuthError::UnknownKey => "invalid API key",
        }
    }
}

/// The token of an `Authorization` header of the form `Bearer <token>`.
pub open spec fn bearer_of(header: Option<Seq<char>>) -> Result<Seq<char>, AuthError> {
    match header {
        None => Err(AuthError::MissingHeader),
        Some(h) => if "Bearer "@.is_prefix_of(h) {
            Ok(h.skip("Bearer "@.len() as int))
        } else {
            Err(AuthError::BadFormat)
        },
    }
}

/// The view of an optional string slice.
pub open spec fn slice_view(s: Option<&str>) -> Option<Seq<char>> {
    match s {
        Some(s) => Some(s@),
        None => None,
    }
}

/// The view of a token, or the fault.
pub open spec fn token_view(r: Result<&str, AuthError>) -> Result<Seq<char>, AuthError> {
    match r {
        Ok(t) => Ok(t@),
        Err(e) => Err(e),
    }
}

/// The token of an `Authorization` header.
pub fn bearer_token<'a>(header: Option<&'a str>) -> (r: Result<&'a str, AuthError>)
    ensures
        token_view(r) == bearer_of(slice_view(header)),
{
    match header {
        None => Err(AuthError::MissingHeader),
        Some(h) => match strip_prefix(h, "Bearer ") {
            Some(token) => {
                assert(("Bearer "@ + token@).skip("Bearer "@.len() as int) == token@);
                assert("Bearer "@.is_prefix_of(h@)) by {
                    assert(h@.subrange(0, "Bearer "@.len() as int) == "Bearer "@);
                }
                Ok(token)
            },
            None => Err(AuthError::BadFormat),
        },
    }
}

/// The pieces of `s` between the occurrences of `sep`. A text without
/// `sep` is one piece, and so is the empty text.
pub open spec fn pieces(s: Seq<char>, sep: char) -> Seq<Seq<char>>
    decreases s.len(),
{
    if s.len() == 0 {
        seq![Seq::empty()]
    } else {
        let before = pieces(s.drop_last(), sep);
        if s.last() == sep {
            before.push(Seq::empty())
        } else {
            before.update(before.len() - 1, before.last().push(s.last()))
        }
    }
}

/// The pieces of `list` between its commas.
pub fn split_commas(list: &str) -> (out: Vec<String>)
    ensures
        texts(out@) == pieces(list@, ','),
{
    let mut done: Vec<String> = Vec::new();
    let mut current = String::new();
    proof {
        assert(list@.take(0) == Seq::<char>::empty());
        assert(texts(done@).push(current@) == seq![Seq::<char>::empty()]);
    }
    for c in it: list.chars()
        invariant
            it.seq() == list@,
            pieces(list@.take(it.index()), ',') == texts(done@).push(current@),
    {
        proof {
            let i = it.index();
            assert(list@.take(i + 1).drop_last() == list@.take(i));
            assert(list@.take(i + 1).last() == c);
        }
        let ghost before = texts(done@);
        let ghost piece = current@;
        if c == ',' {
            done.push(current);
            current = String::new();
            assert(texts(done@) == before.push(piece));
        } else {
            current.push(c);
            assert(before.push(piece).update(before.len() as int, piece.push(c)) == before.push(
                piece.push(c),
            ));
        }
    }
    proof {
        assert(list@.take(list@.len() as int) == list@);
    }
    let ghost before = texts(done@);
    done.push(current);
    assert(texts(done@) == before.push(current@));
    done
}

/// Whether `token` is one of the keys of a comma-separated list. The
/// keys are compared without the white space around them.
pub open spec fn is_listed(keys: Seq<char>, token: Seq<char>) -> bool {
    exists|i: int|
        0 <= i < pieces(keys, ',').len() && trimmed(#[trigger] pieces(keys, ',')[i]) == token
}

/// Whether `token` is one of the keys of a comma-separated list.
pub fn api_key_listed(server_api_keys: &str, token: &str) -> (r: bool)
    ensures
        r == is_listed(server_api_keys@, token@),
{
    let keys = split_commas(server_api_keys);
    let mut i: usize = 0;
    while i < keys.len()
        invariant
            i <= keys.len(),
            texts(keys@) == pieces(server_api_keys@, ','),
            forall|j: int| 0 <= j < i ==> trimmed(#[trigger] texts(keys@)[j]) != token@,
        decreases keys.len() - i,
    {
        assert(texts(keys@)[i as int] == keys@[i as int]@);
        if str_eq(trim(keys[i].as_str()), token) {
            return true;
        }
        i = i + 1;
    }
    false
}

/// Whether the bearer of the header holds the secret: the token of the
/// header is the secret itself.
pub fn authorize_secret(header: Option<&str>, secret: &str) -> (r: Result<(), AuthError>)
    ensures
        r == match bearer_of(slice_view(header)) {
            Err(e) => Err::<(), AuthError>(e),
            Ok(token) => if token == secret@ {
                Ok(())
            } else {
                Err(AuthError::UnknownKey)
            },
        },
{
    match bearer_token(header) {
        Err(e) => Err(e),
        Ok(token) => if str_eq(token, secret) {
            Ok(())
        } else {
            Err(AuthError::UnknownKey)
        },
    }
}

/// Why the page size of a query was refused.
#[derive(Debug, Clone, Copy, PartialEq, Eq, Structural)]
pub enum QueryRequestError {
    /// The page size is 0.
    ZeroPageSize,
    /// The page size is above `MAX_PAGE_SIZE`.
    PageSizeTooLarge,
}

impl QueryRequestError {
    /// The kind of the failure.
    pub fn kind(&self) -> (kind: ErrorKind)
        ensures
            kind == ErrorKind::InvalidInput,
    {
        ErrorKind::InvalidInput
    }

    /// A short description of the fault.
    pub fn message(&self) -> (text: &'static str)
        ensures
            text@ == match *self {
                QueryRequestError::ZeroPageSize => "first must be greater than 0"@,
                QueryRequestError::PageSizeTooLarge => "first must not exceed 100"@,
            },
    {
        match self {
            QueryRequestError::ZeroPageSize => "first must be greater than 0",
            QueryRequestError::PageSizeTooLarge => "first must not exceed 100",
        }
    }
}

/// The page size of a query request: the requested one, or
/// `DEFAULT_PAGE_SIZE` where none is named. A page size outside 1 to
/// `MAX_PAGE_SIZE` is refused.
pub open spec fn page_size_of(first: Option<usize>) -> Result<usize, QueryRequestError> {
    let requested = match first {
        Some(n) => n,
        None => DEFAULT_PAGE_SIZE,
    };
    if requested == 0 {
        Err(QueryRequestError::ZeroPageSize)
    } else if requested > MAX_PAGE_SIZE {
        Err(QueryRequestError::PageSizeTooLarge)
    } else {
        Ok(requested)
    }
}

/// Checks the page size of a query request and gives the size to serve.
/// The filters are not looked at: a request without filters is served, with
/// the empty page.
pub fn check_query_request(first: Option<usize>) -> (r: Result<usize, QueryRequestError>)
    ensures
        r == page_size_of(first),
        r matches Ok(n) ==> 1 <= n <= MAX_PAGE_SIZE,
{
    let requested = match first {
        Some(n) => n,
        None => DEFAULT_PAGE_SIZE,
    };
    if requested == 0 {
        Err(QueryRequestError::ZeroPageSize)
    } else if requested > MAX_PAGE_SIZE {
        Err(QueryRequestError::PageSizeTooLarge)
    } else {
        Ok(requested)
    }
}

/// Why a query request was refused.
#[derive(Debug, Clone, Copy, PartialEq, Eq, Structural)]
pub enum QueryRefusal {
    /// The page size is out of range.
    PageSize { fault: QueryRequestError },
    /// The cursor cannot be read, or its time cannot be written.
    Cursor { fault: CursorError },
}

impl QueryRefusal {
    /// The kind of the failure.
    pub fn kind(&self) -> (kind: ErrorKind)
        ensures
            kind == ErrorKind::InvalidInput,
    {
        ErrorKind::InvalidInput
    }

    /// A short description of the fault.
    pub fn message(&self) -> (text: &'static str)
        ensures
            text@ == match *self {
                QueryRefusal::PageSize { fault } => match fault {
                    QueryRequestError::ZeroPageSize => "first must be greater than 0"@,
                    QueryRequestError::PageSizeTooLarge => "first must not exceed 100"@,
                },
                QueryRefusal::Cursor { fault } => match fault {
                    CursorError::Encoding => "invalid pagination cursor encoding"@,
                    CursorError::Payload => "invalid pagination cursor payload"@,
                    CursorError::Timestamp => "invalid pagination cursor timestamp"@,
                },
            },
    {
        match self {
            QueryRefusal::PageSize { fault } => fault.message(),
            QueryRefusal::Cursor { fault } => fault.message(),
        }
    }
}

/// The plan for a cursor and the filters, with a fault of the cursor as
/// the refusal.
pub open spec fn planned_behind(
    filters: Seq<(Seq<char>, Seq<char>)>,
    size: usize,
    after: Option<CursorView>,
) -> Result<PlanView, QueryRefusal> {
    match planned(filters, size, after) {
        Ok(plan) => Ok(plan),
        Err(fault) => Err(QueryRefusal::Cursor { fault }),
    }
}

/// The plan for a query request. The page size is checked first, then the
/// cursor is read, then the query is planned: without filters, or with none
/// left after normalisation, the plan is `Empty`, whatever the cursor's time.
pub open spec fn request_planned(
    filters: Seq<(Seq<char>, Seq<char>)>,
    first: Option<usize>,
    after: Option<Seq<char>>,
) -> Result<PlanView, QueryRefusal> {
    match page_size_of(first) {
        Err(fault) => Err(QueryRefusal::PageSize { fault }),
        Ok(size) => match after {
            None => planned_behind(filters, size, None),
            Some(text) => match cursor_of(text) {
                Err(fault) => Err(QueryRefusal::Cursor { fault }),
                Ok(cursor) => planned_behind(filters, size, Some(cursor)),
            },
        },
    }
}

/// The view of a plan, or the refusal.
pub open spec fn request_plan_view(r: Result<QueryPlan, QueryRefusal>) -> Result<
    PlanView,
    QueryRefusal,
> {
    match r {
        Ok(plan) => Ok(plan@),
        Err(e) => Err(e),
    }
}

/// Plans the answer to a query request from its filters, its page size and
/// the text of its cursor. A request without filters is not refused: its
/// plan is `Empty`, so it is answered with the empty page and the backend
/// is not asked.
pub fn plan_query_request(filters: &[(String, String)], first: Option<usize>, after: Option<&str>) -> (r:
    Result<QueryPlan, QueryRefusal>)
    ensures
        request_plan_view(r) == request_planned(pairs(filters@), first, slice_view(after)),
        filters@.len() == 0 && first is None && after is None ==> r == Ok::<
            QueryPlan,
            QueryRefusal,
        >(QueryPlan::Empty),
{
    let size = match check_query_request(first) {
        Ok(size) => size,
        Err(fault) => {
            return Err(QueryRefusal::PageSize { fault });
        },
    };
    let cursor = match after {
        None => None,
        Some(text) => match decode_tag_query_cursor(text) {
            Ok(cursor) => Some(cursor),
            Err(fault) => {
                return Err(QueryRefusal::Cursor { fault });
            },
        },
    };
    let pagination = TagQueryPagination { first: size, after: cursor };
    match plan_tag_query(filters, &pagination) {
        Ok(plan) => Ok(plan),
        Err(fault) => Err(QueryRefusal::Cursor { fault }),
    }
}

/// What a part of a multipart upload is taken for.
#[derive(Debug, Clone, Copy, PartialEq, Eq, Structural)]
pub enum FieldKind {
    /// The part named `file`: the body of the item.
    File,
    /// The part named `content_type`: the content type, where the file names none.
    ContentType,
    /// The part named `tags`: the caller's tag candidates.
    Tags,
    /// Any other part: it is skipped.
    Other,
}

/// What a part of the given name is taken for.
pub open spec fn kind_of_field(name: Seq<char>) -> FieldKind {
    if name == "file"@ {
        FieldKind::File
    } else if name == "content_type"@ {
        FieldKind::ContentType
    } else if name == "tags"@ {
        FieldKind::Tags
    } else {
        FieldKind::Other
    }
}

/// What a part of the given name is taken for.
pub fn field_kind(name: &str) -> (kind: FieldKind)
    ensures
        kind == kind_of_field(name@),
{
    if str_eq(name, "file") {
        FieldKind::File
    } else if str_eq(name, "content_type") {
        FieldKind::ContentType
    } else if str_eq(name, "tags") {
        FieldKind::Tags
    } else {
        FieldKind::Other
    }
}

/// The body and the content type read from the parts of an upload so far.
#[derive(Debug, Clone, PartialEq, Eq)]
pub struct UploadParts {
    pub file_data: Option<Vec<u8>>,
    pub content_type: Option<String>,
}

/// The parts of an upload as plain values.
pub struct UploadPartsView {
    pub file_data: Option<Seq<u8>>,
    pub content_type: Option<Seq<char>>,
}

impl View for UploadParts {
    type V = UploadPartsView;

    open spec fn view(&self) -> UploadPartsView {
        UploadPartsView {
            file_data: match self.file_data {
                Some(d) => Some(d@),
                None => None,
            },
            content_type: match self.content_type {
                Some(c) => Some(c@),
                None => None,
            },
        }
    }
}

impl UploadParts {
    /// No part was read yet.
    pub fn new() -> (parts: UploadParts)
        ensures
            parts@ == (UploadPartsView { file_data: None, content_type: None }),
    {
        UploadParts { file_data: None, content_type: None }
    }

    /// Takes a `file` part: its bytes are the body, and its content type,
    /// named or not, replaces what was read before.
    pub fn take_file(&mut self, content_type: Option<String>, bytes: Vec<u8>)
        ensures
            final(self)@ == (UploadPartsView {
                file_data: Some(bytes@),
                content_type: match content_type {
                    Some(c) => Some(c@),
                    None => None,
                },
            }),
    {
        self.content_type = content_type;
        self.file_data = Some(bytes);
    }

    /// Takes a `content_type` part: it counts only where no content type
    /// was read before.
    pub fn take_content_type(&mut self, text: String)
        ensures
            final(self)@ == (UploadPartsView {
                file_data: old(self)@.file_data,
                content_type: match old(self)@.content_type {
                    Some(c) => Some(c),
                    None => Some(text@),
                },
            }),
    {
        if self.content_type.is_none() {
            self.content_type = Some(text);
        }
    }
}

/// Why an upload was refused.
#[derive(Debug, Clone, Copy, PartialEq, Eq, Structural)]
pub enum UploadError {
    /// The request has no `file` part.
    NoFile,
    /// The file is larger than `OBJECT_SIZE_LIMIT`.
    TooLarge,
    /// Tags were sent with a signed item, which carries its own.
    TagsOnSigned,
}

impl UploadError {
    /// The kind of the failure.
    pub fn kind(&self) -> (kind: ErrorKind)
        ensures
            kind == ErrorKind::InvalidInput,
    {
        ErrorKind::InvalidInput
    }

    /// The HTTP status with which the fault is answered.
    pub fn status(&self) -> (code: u16)
        ensures
            code == if *self == UploadError::TooLarge {
                413u16
            } else {
                400u16
            },
    {
        match self {
            UploadError::TooLarge => 413,
            _ => 400,
        }
    }
}

/// What is asked of an upload: it has a file, the file is not larger than
/// `OBJECT_SIZE_LIMIT`, and a signed item comes without tags. Of several
/// faults the first in this order is reported.
pub open spec fn upload_checked(file_len: Option<usize>, is_signed: bool, tag_count: usize) -> Result<
    (),
    UploadError,
> {
    match file_len {
        None => Err(UploadError::NoFile),
        Some(n) => if n > OBJECT_SIZE_LIMIT {
            Err(UploadError::TooLarge)
        } else if is_signed && tag_count > 0 {
            Err(UploadError::TagsOnSigned)
        } else {
            Ok(())
        },
    }
}

/// Checks the parts of an upload.
pub fn check_upload(file_len: Option<usize>, is_signed: bool, tag_count: usize) -> (r: Result<
    (),
    UploadError,
>)
    ensures
        r == upload_checked(file_len, is_signed, tag_count),
{
    match file_len {
        None => Err(UploadError::NoFile),
        Some(n) => if n > OBJECT_SIZE_LIMIT {
            Err(UploadError::TooLarge)
        } else if is_signed && tag_count > 0 {
            Err(UploadError::TagsOnSigned)
        } else {
            Ok(())
        },
    }
}

/// Whether the `signed` header marks the upload as a signed item: its
/// value is `true`.
pub fn is_signed_upload(header: Option<&str>) -> (r: bool)
    ensures
        r == (slice_view(header) == Some("true"@)),
{
    match header {
        Some(value) => str_eq(value, "true"),
        None => false,
    }
}

/// The content type of an upload: the declared one, or
/// `application/octet-stream` where none is declared.
pub fn content_type_or_default(content_type: Option<String>) -> (r: String)
    ensures
        r@ == match content_type {
            Some(c) => c@,
            None => "application/octet-stream"@,
        },
{
    match content_type {
        Some(c) => c,
        None => "application/octet-stream".to_owned(),
    }
}

} // verus!
