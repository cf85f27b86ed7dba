use load_s3_agent::cursor::{CursorError, TagQueryCursor};
use load_s3_agent::error::ErrorKind;
use load_s3_agent::query::{plan_tag_query, QueryPlan, TagQueryPagination};
use load_s3_agent::request::{
    api_key_listed, authorize_secret, bearer_token, check_query_request, check_upload,
    content_type_or_default, field_kind, is_signed_upload, plan_query_request, split_commas,
    AuthError, FieldKind, QueryRefusal, QueryRequestError, UploadError, UploadParts,
};
use load_s3_agent::time::Timestamp;

#[test]
fn bearer_token_is_the_rest_behind_the_prefix() {
    assert_eq!(bearer_token(Some("Bearer abc")), Ok("abc"));
    assert_eq!(bearer_token(Some("Bearer ")), Ok(""));
    assert_eq!(bearer_token(Some("Bearer  two spaces")), Ok(" two spaces"));
    assert_eq!(bearer_token(Some("bearer abc")), Err(AuthError::BadFormat));
    assert_eq!(bearer_token(Some("Bearerabc")), Err(AuthError::BadFormat));
    assert_eq!(bearer_token(Some("")), Err(AuthError::BadFormat));
    assert_eq!(bearer_token(None), Err(AuthError::MissingHeader));
}

#[test]
fn auth_errors_are_unauthorized() {
    assert_eq!(AuthError::MissingHeader.kind(), ErrorKind::Unauthorized);
    assert_eq!(AuthError::MissingHeader.message(), "missing Authorization header");
    assert_eq!(
        AuthError::BadFormat.message(),
        "invalid Authorization header format. Expected 'Bearer <token>'"
    );
    assert_eq!(AuthError::UnknownKey.message(), "invalid API key");
}

#[test]
fn key_lists_are_split_at_commas() {
    assert_eq!(split_commas("a,b , c"), vec!["a", "b ", " c"]);
    assert_eq!(split_commas(""), vec![""]);
    assert_eq!(split_commas(","), vec!["", ""]);
    assert_eq!(split_commas("a,,b,"), vec!["a", "", "b", ""]);
    assert_eq!(split_commas("no comma"), vec!["no comma"]);
}

#[test]
fn listed_keys_are_compared_without_surrounding_space() {
    assert!(api_key_listed("k1, k2 ,k3", "k2"));
    assert!(api_key_listed("k1, k2 ,k3", "k3"));
    assert!(!api_key_listed("k1, k2 ,k3", "k4"));
    assert!(!api_key_listed("k1, k2 ,k3", " k2 "));
    assert!(!api_key_listed("k1,k2", "k1,k2"));
    assert!(api_key_listed("", ""));
    assert!(!api_key_listed("", "k"));
}

#[test]
fn registry_secret_must_be_the_token() {
    assert_eq!(authorize_secret(Some("Bearer s3cret"), "s3cret"), Ok(()));
    assert_eq!(authorize_secret(Some("Bearer other"), "s3cret"), Err(AuthError::UnknownKey));
    assert_eq!(authorize_secret(Some("Bearer s3cret "), "s3cret"), Err(AuthError::UnknownKey));
    assert_eq!(authorize_secret(Some("s3cret"), "s3cret"), Err(AuthError::BadFormat));
    assert_eq!(authorize_secret(None, "s3cret"), Err(AuthError::MissingHeader));
}

#[test]
fn page_size_must_lie_between_one_and_a_hundred() {
    assert_eq!(check_query_request(None), Ok(25));
    assert_eq!(check_query_request(Some(1)), Ok(1));
    assert_eq!(check_query_request(Some(100)), Ok(100));
    assert_eq!(check_query_request(Some(0)), Err(QueryRequestError::ZeroPageSize));
    assert_eq!(check_query_request(Some(101)), Err(QueryRequestError::PageSizeTooLarge));
    assert_eq!(QueryRequestError::ZeroPageSize.kind(), ErrorKind::InvalidInput);
    assert_eq!(QueryRequestError::ZeroPageSize.message(), "first must be greater than 0");
    assert_eq!(QueryRequestError::PageSizeTooLarge.message(), "first must not exceed 100");
}

#[test]
fn request_without_filters_is_answered_with_the_empty_page() {
    assert_eq!(plan_query_request(&[], None, None), Ok(QueryPlan::Empty));
    assert_eq!(plan_query_request(&[], Some(7), None), Ok(QueryPlan::Empty));
    let blank = vec![(" ".to_string(), "x".to_string())];
    assert_eq!(plan_query_request(&blank, None, None), Ok(QueryPlan::Empty));
    let cursor = "eyJjcmVhdGVkX2F0IjoiMTk3MC0wMS0wMVQwMDowMDoxMCswMDowMCIsImRhdGFpdGVtX2lkIjoiQSJ9";
    assert_eq!(plan_query_request(&[], None, Some(cursor)), Ok(QueryPlan::Empty));
}

#[test]
fn request_with_filters_asks_the_backend() {
    let filters = vec![("type".to_string(), "image".to_string())];
    let cursor = "eyJjcmVhdGVkX2F0IjoiMTk3MC0wMS0wMVQwMDowMDoxMCswMDowMCIsImRhdGFpdGVtX2lkIjoiQSJ9";
    let pagination = TagQueryPagination {
        first: 25,
        after: Some(TagQueryCursor {
            created_at: Timestamp { secs: 10, nanos: 0 },
            dataitem_id: "A".to_string(),
        }),
    };
    let plan = plan_query_request(&filters, None, Some(cursor)).unwrap();
    assert_eq!(plan, plan_tag_query(&filters, &pagination).unwrap());
    match plan {
        QueryPlan::Ask { statement, limit } => {
            assert_eq!(limit, 25);
            assert!(statement.ends_with(
                " WHERE (created_at < toDateTime64('1970-01-01 00:00:10.000', 3, 'UTC')) OR (created_at = toDateTime64('1970-01-01 00:00:10.000', 3, 'UTC') AND dataitem_id < 'A') ORDER BY created_at DESC, dataitem_id DESC LIMIT 26 FORMAT JSON"
            ));
        }
        QueryPlan::Empty => panic!("the backend is to be asked"),
    }
}

#[test]
fn bad_page_size_and_bad_cursor_refuse_the_request() {
    let filters = vec![("type".to_string(), "image".to_string())];
    let zero = QueryRefusal::PageSize { fault: QueryRequestError::ZeroPageSize };
    let large = QueryRefusal::PageSize { fault: QueryRequestError::PageSizeTooLarge };
    assert_eq!(plan_query_request(&filters, Some(0), None), Err(zero));
    assert_eq!(plan_query_request(&[], Some(0), None), Err(zero));
    assert_eq!(plan_query_request(&filters, Some(101), None), Err(large));
    // the page size is checked before the cursor
    assert_eq!(plan_query_request(&filters, Some(0), Some("%%%")), Err(zero));
    assert_eq!(
        plan_query_request(&filters, None, Some("%%%")),
        Err(QueryRefusal::Cursor { fault: CursorError::Encoding })
    );
    assert_eq!(
        plan_query_request(&[], None, Some("bm90IGpzb24")),
        Err(QueryRefusal::Cursor { fault: CursorError::Payload })
    );
    assert_eq!(
        plan_query_request(
            &filters,
            None,
            Some("eyJjcmVhdGVkX2F0IjoieWVzdGVyZGF5IiwiZGF0YWl0ZW1faWQiOiJBIn0")
        ),
        Err(QueryRefusal::Cursor { fault: CursorError::Timestamp })
    );
    assert_eq!(zero.kind(), ErrorKind::InvalidInput);
    assert_eq!(zero.message(), "first must be greater than 0");
    assert_eq!(large.message(), "first must not exceed 100");
    let bad = QueryRefusal::Cursor { fault: CursorError::Payload };
    assert_eq!(bad.kind(), ErrorKind::InvalidInput);
    assert_eq!(bad.message(), "invalid pagination cursor payload");
}

#[test]
fn upload_needs_a_file_within_the_size_limit() {
    let limit = 250 * 1024 * 1024;
    assert_eq!(check_upload(Some(0), false, 0), Ok(()));
    assert_eq!(check_upload(Some(limit), false, 3), Ok(()));
    assert_eq!(check_upload(Some(limit + 1), false, 0), Err(UploadError::TooLarge));
    assert_eq!(check_upload(None, false, 0), Err(UploadError::NoFile));
    assert_eq!(check_upload(None, true, 2), Err(UploadError::NoFile));
    assert_eq!(UploadError::TooLarge.status(), 413);
    assert_eq!(UploadError::NoFile.status(), 400);
    assert_eq!(UploadError::TagsOnSigned.status(), 400);
    assert_eq!(UploadError::NoFile.kind(), ErrorKind::InvalidInput);
}

#[test]
fn signed_upload_takes_no_tags() {
    assert_eq!(check_upload(Some(10), true, 0), Ok(()));
    assert_eq!(check_upload(Some(10), true, 1), Err(UploadError::TagsOnSigned));
    assert_eq!(check_upload(Some(usize::MAX), true, 1), Err(UploadError::TooLarge));
    assert!(is_signed_upload(Some("true")));
    assert!(!is_signed_upload(Some("True")));
    assert!(!is_signed_upload(Some("1")));
    assert!(!is_signed_upload(None));
}

#[test]
fn missing_content_type_defaults_to_octet_stream() {
    assert_eq!(content_type_or_default(None), "application/octet-stream");
    assert_eq!(content_type_or_default(Some("image/png".to_string())), "image/png");
    assert_eq!(content_type_or_default(Some(String::new())), "");
}

#[test]
fn parts_are_told_apart_by_their_name() {
    assert_eq!(field_kind("file"), FieldKind::File);
    assert_eq!(field_kind("content_type"), FieldKind::ContentType);
    assert_eq!(field_kind("tags"), FieldKind::Tags);
    assert_eq!(field_kind("File"), FieldKind::Other);
    assert_eq!(field_kind(""), FieldKind::Other);
}

#[test]
fn content_type_of_the_file_part_wins() {
    let mut parts = UploadParts::new();
    assert_eq!(parts, UploadParts { file_data: None, content_type: None });
    parts.take_content_type("text/plain".to_string());
    parts.take_content_type("text/html".to_string());
    assert_eq!(parts.content_type, Some("text/plain".to_string()));
    parts.take_file(Some("image/png".to_string()), vec![1, 2, 3]);
    assert_eq!(
        parts,
        UploadParts { file_data: Some(vec![1, 2, 3]), content_type: Some("image/png".to_string()) }
    );
    parts.take_content_type("text/html".to_string());
    assert_eq!(parts.content_type, Some("image/png".to_string()));
}

#[test]
fn file_part_without_content_type_clears_an_earlier_one() {
    let mut parts = UploadParts::new();
    parts.take_content_type("text/plain".to_string());
    parts.take_file(None, vec![9]);
    assert_eq!(parts, UploadParts { file_data: Some(vec![9]), content_type: None });
    parts.take_content_type("text/html".to_string());
    assert_eq!(parts.content_type, Some("text/html".to_string()));
}
