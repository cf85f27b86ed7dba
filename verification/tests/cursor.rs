use load_s3_agent::cursor::{
    cursor_from_members, decode_tag_query_cursor, encode_tag_query_cursor, CursorError,
    TagQueryCursor,
};
use load_s3_agent::error::ErrorKind;
use load_s3_agent::time::{parse_clickhouse_datetime, Timestamp};

#[test]
fn cursor_has_the_documented_wire_form() {
    let text = encode_tag_query_cursor(Timestamp { secs: 10, nanos: 0 }, "A").unwrap();
    assert_eq!(
        text,
        "eyJjcmVhdGVkX2F0IjoiMTk3MC0wMS0wMVQwMDowMDoxMCswMDowMCIsImRhdGFpdGVtX2lkIjoiQSJ9"
    );
}

#[test]
fn cursor_with_milliseconds_has_the_documented_wire_form() {
    let at = Timestamp { secs: 1714566600, nanos: 250_000_000 };
    let text = encode_tag_query_cursor(at, "item-1").unwrap();
    assert_eq!(
        text,
        "eyJjcmVhdGVkX2F0IjoiMjAyNC0wNS0wMVQxMjozMDowMC4yNTArMDA6MDAiLCJkYXRhaXRlbV9pZCI6Iml0ZW0tMSJ9"
    );
}

#[test]
fn cursor_decodes_to_the_pair_it_encodes() {
    let at = Timestamp { secs: 1714566600, nanos: 250_000_000 };
    let text = encode_tag_query_cursor(at, "it's \"quoted\"").unwrap();
    let cursor = decode_tag_query_cursor(&text).unwrap();
    assert_eq!(cursor, TagQueryCursor { created_at: at, dataitem_id: "it's \"quoted\"".to_string() });
}

#[test]
fn cursor_time_is_read_in_utc() {
    let text =
        "eyJjcmVhdGVkX2F0IjoiMjAyNC0wNS0wMVQxNDozMDowMC4yNTArMDI6MDAiLCJkYXRhaXRlbV9pZCI6Iml0ZW0tMSJ9";
    let cursor = decode_tag_query_cursor(text).unwrap();
    assert_eq!(cursor.created_at, Timestamp { secs: 1714566600, nanos: 250_000_000 });
    assert_eq!(cursor.dataitem_id, "item-1");
}

#[test]
fn cursor_that_is_not_base64_is_invalid_input() {
    assert_eq!(decode_tag_query_cursor("%%%not-base64%%%"), Err(CursorError::Encoding));
    // padded base64 is refused as well
    assert_eq!(decode_tag_query_cursor("bm90IGpzb24="), Err(CursorError::Encoding));
    assert_eq!(CursorError::Encoding.kind(), ErrorKind::InvalidInput);
    assert_eq!(CursorError::Encoding.message(), "invalid pagination cursor encoding");
}

#[test]
fn cursor_that_is_not_json_is_invalid_input() {
    assert_eq!(decode_tag_query_cursor("bm90IGpzb24"), Err(CursorError::Payload));
    // a JSON object without the time
    assert_eq!(decode_tag_query_cursor("eyJkYXRhaXRlbV9pZCI6IkEifQ"), Err(CursorError::Payload));
    assert_eq!(decode_tag_query_cursor(""), Err(CursorError::Payload));
    assert_eq!(CursorError::Payload.kind(), ErrorKind::InvalidInput);
    assert_eq!(CursorError::Payload.message(), "invalid pagination cursor payload");
}

#[test]
fn cursor_with_unreadable_time_is_invalid_input() {
    assert_eq!(
        decode_tag_query_cursor("eyJjcmVhdGVkX2F0IjoieWVzdGVyZGF5IiwiZGF0YWl0ZW1faWQiOiJBIn0"),
        Err(CursorError::Timestamp)
    );
    assert_eq!(CursorError::Timestamp.kind(), ErrorKind::InvalidInput);
    assert_eq!(CursorError::Timestamp.message(), "invalid pagination cursor timestamp");
}

#[test]
fn cursor_for_a_time_out_of_range_is_refused() {
    let at = Timestamp { secs: i64::MAX, nanos: 0 };
    assert_eq!(encode_tag_query_cursor(at, "A"), Err(CursorError::Timestamp));
    let at = Timestamp { secs: 0, nanos: 2_000_000_000 };
    assert_eq!(encode_tag_query_cursor(at, "A"), Err(CursorError::Timestamp));
}

#[test]
fn cursor_members_give_the_cursor() {
    let cursor = cursor_from_members("1970-01-01T00:00:10Z", "A".to_string()).unwrap();
    assert_eq!(cursor.created_at, Timestamp { secs: 10, nanos: 0 });
    assert_eq!(cursor.dataitem_id, "A");
    assert_eq!(cursor_from_members("10", "A".to_string()), Err(CursorError::Timestamp));
}

#[test]
fn backend_times_are_read_with_and_without_fraction() {
    assert_eq!(
        parse_clickhouse_datetime("2024-05-01 12:30:00.250"),
        Some(Timestamp { secs: 1714566600, nanos: 250_000_000 })
    );
    assert_eq!(
        parse_clickhouse_datetime("2024-05-01 12:30:00"),
        Some(Timestamp { secs: 1714566600, nanos: 0 })
    );
    assert_eq!(
        parse_clickhouse_datetime("1969-12-31 23:59:59.5"),
        Some(Timestamp { secs: -1, nanos: 500_000_000 })
    );
    assert_eq!(parse_clickhouse_datetime("2024-05-01T12:30:00Z"), None);
    assert_eq!(parse_clickhouse_datetime(""), None);
}

#[test]
fn earlier_instants_come_before_later_ones() {
    let a = Timestamp { secs: 5, nanos: 999 };
    let b = Timestamp { secs: 6, nanos: 0 };
    let c = Timestamp { secs: 6, nanos: 1 };
    assert!(a.is_before(&b));
    assert!(b.is_before(&c));
    assert!(!c.is_before(&b));
    assert!(!b.is_before(&b));
    assert!(Timestamp { secs: -1, nanos: 0 }.is_before(&Timestamp { secs: 0, nanos: 0 }));
}

#[test]
fn cursor_round_trip_holds_at_the_ends_of_the_common_era() {
    for at in [
        Timestamp { secs: -62167219200, nanos: 0 },
        Timestamp { secs: 253402300799, nanos: 999_999_999 },
        Timestamp { secs: 0, nanos: 1 },
        Timestamp { secs: -1, nanos: 123_000 },
    ] {
        let text = encode_tag_query_cursor(at, "id \u{e9}").unwrap();
        let cursor = decode_tag_query_cursor(&text).unwrap();
        assert_eq!(cursor, TagQueryCursor { created_at: at, dataitem_id: "id \u{e9}".to_string() });
    }
}

#[test]
fn cursor_payload_takes_the_last_of_repeated_members() {
    // {"created_at":"1970-01-01T00:00:10Z","dataitem_id":"A","dataitem_id":"B"}
    let text = "eyJjcmVhdGVkX2F0IjoiMTk3MC0wMS0wMVQwMDowMDoxMFoiLCJkYXRhaXRlbV9pZCI6IkEiLCJkYXRhaXRlbV9pZCI6IkIifQ";
    let cursor = decode_tag_query_cursor(text).unwrap();
    assert_eq!(cursor.dataitem_id, "B");
    assert_eq!(cursor.created_at, Timestamp { secs: 10, nanos: 0 });
}

#[test]
fn cursor_within_a_leap_second_decodes_to_its_instant() {
    for at in [
        Timestamp { secs: 59, nanos: 1_500_000_000 },
        Timestamp { secs: 1483228799, nanos: 1_999_999_999 },
        Timestamp { secs: -1, nanos: 1_000_000_000 },
    ] {
        assert!(at.has_rfc3339_text());
        let text = encode_tag_query_cursor(at, "A").unwrap();
        let cursor = decode_tag_query_cursor(&text).unwrap();
        assert_eq!(cursor, TagQueryCursor { created_at: at, dataitem_id: "A".to_string() });
    }
}

#[test]
fn cursor_for_a_year_without_rfc3339_text_is_refused() {
    // the first second of the year 10000, and the last of the year before 0
    for at in [
        Timestamp { secs: 253402300800, nanos: 0 },
        Timestamp { secs: -62167219201, nanos: 0 },
        Timestamp { secs: 0, nanos: 1_000_000_000 },
        Timestamp { secs: 58, nanos: 1_500_000_000 },
        Timestamp { secs: 59, nanos: 2_000_000_000 },
    ] {
        assert!(!at.has_rfc3339_text());
        assert_eq!(encode_tag_query_cursor(at, "A"), Err(CursorError::Timestamp));
    }
    assert!(Timestamp { secs: 253402300799, nanos: 999_999_999 }.has_rfc3339_text());
    assert!(Timestamp { secs: -62167219200, nanos: 0 }.has_rfc3339_text());
    assert!(Timestamp { secs: -62167219141, nanos: 1_000_000_000 }.has_rfc3339_text());
}
