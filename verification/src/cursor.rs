//! The query cursor and its wire form.
//!
//! A cursor names the last row of a page by its time and its item id. On
//! the wire it is the unpadded base64 text of a JSON object with the two
//! members `created_at`, an RFC 3339 text, and `dataitem_id`. Further
//! members are passed over, and of a member that is named more than once
//! the last counts.

use crate::error::ErrorKind;
use crate::tags::pairs;
use crate::time::{
    format_rfc3339, in_common_era, parse_rfc3339, rfc3339_instant, rfc3339_text, text_of,
    Timestamp,
};
use vstd::prelude::*;

verus! {

/// The position behind which the next page starts.
#[derive(Debug, Clone, PartialEq, Eq)]
pub struct TagQueryCursor {
    pub created_at: Timestamp,
    pub dataitem_id: String,
}

/// Why a cursor text was refused, or why a cursor could not be written.
#[derive(Debug, Clone, Copy, PartialEq, Eq, Structural)]
pub enum CursorError {
    /// The text is not unpadded base64, or the payload is too long to encode.
    Encoding,
    /// The bytes are not a JSON object with the two text members.
    Payload,
    /// The time is not an RFC 3339 text, or lies outside the supported range.
    Timestamp,
}

impl CursorError {
    /// The kind of the failure: a cursor is the caller's input.
    pub fn kind(&self) -> (kind: ErrorKind)
        ensures
            kind == ErrorKind::InvalidInput,
    {
        ErrorKind::InvalidInput
    }

    /// A short description of the fault.
    pub fn message(&self) -> (text: &'static str)
        ensures
            text@ == match *self {
                CursorError::Encoding => "invalid pagination cursor encoding"@,
                CursorError::Payload => "invalid pagination cursor payload"@,
                CursorError::Timestamp => "invalid pagination cursor timestamp"@,
            },
    {
        match self {
            CursorError::Encoding => "invalid pagination cursor encoding",
            CursorError::Payload => "invalid pagination cursor payload",
            CursorError::Timestamp => "invalid pagination cursor timestamp",
        }
    }
}

/// A cursor as plain values.
pub struct CursorView {
    pub created_at: Timestamp,
    pub dataitem_id: Seq<char>,
}

impl View for TagQueryCursor {
    type V = CursorView;

    open spec fn view(&self) -> CursorView {
        CursorView { created_at: self.created_at, dataitem_id: self.dataitem_id@ }
    }
}

/// Longest payload that is encoded: the base64 text of it has a length that
/// fits the machine's word.
pub open spec fn max_payload_len() -> int {
    (usize::MAX / 2) as int
}

/// The unpadded base64 text of `bytes` in the standard alphabet.
pub uninterp spec fn base64_text(bytes: Seq<u8>) -> Seq<char>;

/// The bytes that an unpadded base64 text in the standard alphabet stands
/// for; `None` for any other text.
pub uninterp spec fn base64_bytes(text: Seq<char>) -> Option<Seq<u8>>;

/// The JSON text of the object whose members are the given names, each
/// with its text as value, as `serde_json` writes it.
pub uninterp spec fn json_object(members: Seq<(Seq<char>, Seq<char>)>) -> Option<Seq<u8>>;

/// The text that a JSON object gives to the member `name`, as `serde_json`
/// reads it; `None` where the bytes are no JSON value, or one without a
/// text member of that name.
pub uninterp spec fn json_text_member(json: Seq<u8>, name: Seq<char>) -> Option<Seq<char>>;

/// Whether no other member has the name of the `i`-th.
pub open spec fn named_once(members: Seq<(Seq<char>, Seq<char>)>, i: int) -> bool {
    forall|j: int| 0 <= j < members.len() && j != i ==> (#[trigger] members[j]).0 != members[i].0
}

/// The views of an optional byte vector.
pub open spec fn bytes_of(v: Option<Vec<u8>>) -> Option<Seq<u8>> {
    match v {
        Some(v) => Some(v@),
        None => None,
    }
}

/// `base64::Engine::encode` of the engine `STANDARD_NO_PAD`. The length of
/// the input is bounded so that the length of the text can be computed.
/// `base64::Engine::decode` of the same engine reads the text back as the
/// bytes.
#[verifier::external_body]
pub(crate) fn base64_encode(bytes: &[u8]) -> (text: String)
    requires
        bytes@.len() <= max_payload_len(),
    ensures
        text@ == base64_text(bytes@),
        base64_bytes(text@) == Some(bytes@),
{
    base64::Engine::encode(&base64::engine::general_purpose::STANDARD_NO_PAD, bytes)
}

/// `base64::Engine::decode` of the engine `STANDARD_NO_PAD`.
#[verifier::external_body]
pub(crate) fn base64_decode(text: &str) -> (bytes: Option<Vec<u8>>)
    ensures
        bytes_of(bytes) == base64_bytes(text@),
{
    base64::Engine::decode(&base64::engine::general_purpose::STANDARD_NO_PAD, text).ok()
}

/// Whether `serde_json` keeps the name for its own use: an object whose
/// first member bears such a name is not read as an object.
pub open spec fn is_reserved_member_name(name: Seq<char>) -> bool {
    name == "$serde_json::private::RawValue"@ || name == "$serde_json::private::Number"@
}

/// `serde_json::to_vec` of the JSON object with the given members, each a
/// text; writing such an object does not fail. Where no member bears a name
/// that `serde_json` keeps for its own use, `serde_json::from_slice` reads
/// from the bytes, for a name that only one member has, the text of that
/// member.
#[verifier::external_body]
pub(crate) fn write_json_object(members: &Vec<(String, String)>) -> (json: Option<Vec<u8>>)
    ensures
        bytes_of(json) == json_object(pairs(members@)),
        json is Some,
        json matches Some(bytes) ==> ((forall|j: int|
            0 <= j < pairs(members@).len() ==> !is_reserved_member_name(
                (#[trigger] pairs(members@)[j]).0,
            )) ==> forall|i: int|
            0 <= i < pairs(members@).len() && named_once(pairs(members@), i) ==> json_text_member(
                bytes@,
                (#[trigger] pairs(members@)[i]).0,
            ) == Some(pairs(members@)[i].1)),
{
    let mut object = serde_json::Map::new();
    for (name, value) in members.iter() {
        object.insert(name.clone(), serde_json::Value::String(value.clone()));
    }
    serde_json::to_vec(&serde_json::Value::Object(object)).ok()
}

/// `serde_json::from_slice` to a JSON value, and of that value the text of
/// the member `name`.
#[verifier::external_body]
pub(crate) fn read_json_text_member(json: &[u8], name: &str) -> (value: Option<String>)
    ensures
        text_of(value) == json_text_member(json@, name@),
{
    let parsed: serde_json::Value = serde_json::from_slice(json).ok()?;
    Some(parsed.get(name)?.as_str()?.to_owned())
}

/// The members of the payload of a cursor: `created_at` with the time as
/// RFC 3339 text, and `dataitem_id`.
pub open spec fn cursor_members(stamp: Seq<char>, dataitem_id: Seq<char>) -> Seq<
    (Seq<char>, Seq<char>),
> {
    seq![("created_at"@, stamp), ("dataitem_id"@, dataitem_id)]
}

/// The RFC 3339 text of the time of a cursor. Only an instant in the years
/// 0 to 9999 has one, and so a text that can be read back.
pub open spec fn written_stamp(at: Timestamp) -> Option<Seq<char>> {
    if in_common_era(at) {
        rfc3339_text(at.secs, at.nanos)
    } else {
        None
    }
}

/// The wire form of the cursor for a row with the given time and item id.
/// A time outside the years 0 to 9999 is refused: it has no RFC 3339 text.
pub open spec fn cursor_text(at: Timestamp, dataitem_id: Seq<char>) -> Result<Seq<char>, CursorError> {
    match written_stamp(at) {
        None => Err(CursorError::Timestamp),
        Some(stamp) => match json_object(cursor_members(stamp, dataitem_id)) {
            None => Err(CursorError::Payload),
            Some(json) => if json.len() <= max_payload_len() {
                Ok(base64_text(json))
            } else {
                Err(CursorError::Encoding)
            },
        },
    }
}

/// The cursor that a wire form stands for.
pub open spec fn cursor_of(text: Seq<char>) -> Result<CursorView, CursorError> {
    match base64_bytes(text) {
        None => Err(CursorError::Encoding),
        Some(json) => match json_text_member(json, "created_at"@) {
            None => Err(CursorError::Payload),
            Some(stamp) => match json_text_member(json, "dataitem_id"@) {
                None => Err(CursorError::Payload),
                Some(dataitem_id) => match rfc3339_instant(stamp) {
                    None => Err(CursorError::Timestamp),
                    Some(at) => Ok(
                        CursorView { created_at: Timestamp { secs: at.0, nanos: at.1 }, dataitem_id },
                    ),
                },
            },
        },
    }
}

/// The view of a decoded cursor, or the fault.
pub open spec fn decoded_view(r: Result<TagQueryCursor, CursorError>) -> Result<CursorView, CursorError> {
    match r {
        Ok(c) => Ok(c@),
        Err(e) => Err(e),
    }
}

/// The view of an encoded cursor, or the fault.
pub open spec fn encoded_view(r: Result<String, CursorError>) -> Result<Seq<char>, CursorError> {
    match r {
        Ok(s) => Ok(s@),
        Err(e) => Err(e),
    }
}

/// The cursor for the members of a payload: the time is read from its
/// RFC 3339 text.
pub fn cursor_from_members(created_at: &str, dataitem_id: String) -> (r: Result<
    TagQueryCursor,
    CursorError,
>)
    ensures
        decoded_view(r) == match rfc3339_instant(created_at@) {
            None => Err::<CursorView, CursorError>(CursorError::Timestamp),
            Some(at) => Ok(
                CursorView {
                    created_at: Timestamp { secs: at.0, nanos: at.1 },
                    dataitem_id: dataitem_id@,
                },
            ),
        },
{
    match parse_rfc3339(created_at) {
        None => Err(CursorError::Timestamp),
        Some(at) => Ok(TagQueryCursor { created_at: at, dataitem_id }),
    }
}

/// Reads a cursor from its wire form. A text that is not unpadded base64,
/// a payload that is not the expected JSON object, and a time that is not
/// RFC 3339 are told apart in the error.
pub fn decode_tag_query_cursor(encoded: &str) -> (r: Result<TagQueryCursor, CursorError>)
    ensures
        decoded_view(r) == cursor_of(encoded@),
{
    let json = match base64_decode(encoded) {
        None => {
            return Err(CursorError::Encoding);
        },
        Some(json) => json,
    };
    let stamp = match read_json_text_member(json.as_slice(), "created_at") {
        None => {
            return Err(CursorError::Payload);
        },
        Some(stamp) => stamp,
    };
    match read_json_text_member(json.as_slice(), "dataitem_id") {
        None => Err(CursorError::Payload),
        Some(dataitem_id) => cursor_from_members(stamp.as_str(), dataitem_id),
    }
}

/// Writes the cursor for a row with the given time and item id. A time
/// outside the years 0 to 9999 is refused; for any other time the cursor is
/// written, unless its payload is too long for the encoder. Every cursor
/// that is written decodes to the time and id it was written for.
pub fn encode_tag_query_cursor(created_at: Timestamp, dataitem_id: &str) -> (r: Result<
    String,
    CursorError,
>)
    ensures
        encoded_view(r) == cursor_text(created_at, dataitem_id@),
        r matches Ok(text) ==> cursor_of(text@) == Ok::<CursorView, CursorError>(
            CursorView { created_at, dataitem_id: dataitem_id@ },
        ),
        !in_common_era(created_at) ==> r == Err::<String, CursorError>(CursorError::Timestamp),
        in_common_era(created_at) ==> r is Ok || r == Err::<String, CursorError>(
            CursorError::Encoding,
        ),
{
    if !created_at.has_rfc3339_text() {
        return Err(CursorError::Timestamp);
    }
    let stamp = match format_rfc3339(created_at) {
        None => {
            return Err(CursorError::Timestamp);
        },
        Some(stamp) => stamp,
    };
    let mut members: Vec<(String, String)> = Vec::new();
    members.push(("created_at".to_owned(), stamp));
    members.push(("dataitem_id".to_owned(), dataitem_id.to_owned()));
    proof {
        let ms = pairs(members@);
        assert(ms =~= cursor_members(stamp@, dataitem_id@));
        reveal_strlit("created_at");
        reveal_strlit("dataitem_id");
        reveal_strlit("$serde_json::private::RawValue");
        reveal_strlit("$serde_json::private::Number");
        assert("created_at"@.len() != "dataitem_id"@.len());
        assert(named_once(ms, 0));
        assert(named_once(ms, 1));
        assert(!is_reserved_member_name(ms[0].0));
        assert(!is_reserved_member_name(ms[1].0));
    }
    let json = match write_json_object(&members) {
        None => {
            return Err(CursorError::Payload);
        },
        Some(json) => json,
    };
    proof {
        let ms = pairs(members@);
        assert(json_text_member(json@, ms[0].0) == Some(ms[0].1));
        assert(json_text_member(json@, ms[1].0) == Some(ms[1].1));
    }
    if json.len() > usize::MAX / 2 {
        return Err(CursorError::Encoding);
    }
    Ok(base64_encode(json.as_slice()))
}

} // verus!
