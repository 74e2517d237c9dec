//! The inbound reply: tolerant decoding, alias spellings, error
//! classification, and the one-line summary.

use rocket_notify::response::{decode_reply, DecodeError};

#[test]
fn success_reply_renders_ok() {
    let r = decode_reply("{\"success\":true}").unwrap();
    assert!(r.success());
    assert_eq!(r.status_line(), "ok");
}

#[test]
fn error_type_alone_renders_error_type() {
    let r = decode_reply("{\"success\":false,\"error\":\"\",\"errorType\":\"X\"}").unwrap();
    assert!(!r.success());
    assert_eq!(r.error_type(), "X");
    assert_eq!(r.status_line(), "X");
}

#[test]
fn no_error_members_render_unknown_error() {
    let r = decode_reply("{\"success\":false}").unwrap();
    assert_eq!(r.status_line(), "unknown error");
}

#[test]
fn error_text_wins_over_error_type() {
    let r = decode_reply("{\"success\":false,\"error\":\"boom\",\"errorType\":\"X\"}").unwrap();
    assert_eq!(r.error_message(), "boom");
    assert_eq!(r.status_line(), "boom");
}

#[test]
fn empty_object_takes_all_defaults() {
    let r = decode_reply("{}").unwrap();
    assert!(!r.success());
    assert_eq!(r.channel(), "");
    assert_eq!(r.error_message(), "");
    assert_eq!(r.error_type(), "");
    assert_eq!(r.ts(), 0);
    let m = r.message();
    assert_eq!(m.alias(), "");
    assert_eq!(m.msg(), "");
    assert!(!m.parse_urls());
    assert!(!m.groupable());
    assert_eq!(m.rid(), "");
    assert_eq!(m.ts(), 0);
    assert_eq!(m.updated_at(), 0);
    assert!(!m.id().is_present());
    assert_eq!(m.u().id(), "");
    assert_eq!(m.u().username(), "");
}

#[test]
fn unknown_members_are_ignored() {
    let r = decode_reply("{\"success\":true,\"whatever\":[1,2,{\"x\":null}]}").unwrap();
    assert!(r.success());
}

#[test]
fn timestamps_parse_from_rfc3339() {
    let r = decode_reply("{\"ts\":\"1970-01-01T00:00:10+00:00\"}").unwrap();
    assert_eq!(r.ts(), 10_000);
    let r = decode_reply(
        "{\"message\":{\"ts\":\"1970-01-01T00:00:01.500+00:00\",\"updatedAt\":\"1970-01-01T01:00:00+01:00\"}}",
    )
    .unwrap();
    assert_eq!(r.message().ts(), 1_500);
    assert_eq!(r.message().updated_at(), 0);
}

#[test]
fn alias_spellings_decode_identically() {
    let with_aliases = decode_reply(
        "{\"success\":false,\"errorType\":\"E\",\"message\":{\"_id\":\"m1\",\"parseUrls\":true,\"u\":{\"_id\":\"u1\",\"username\":\"bob\"}}}",
    )
    .unwrap();
    let canonical = decode_reply(
        "{\"success\":false,\"error_type\":\"E\",\"message\":{\"id\":\"m1\",\"parse_urls\":true,\"u\":{\"id\":\"u1\",\"username\":\"bob\"}}}",
    )
    .unwrap();
    assert_eq!(with_aliases, canonical);
    assert_eq!(with_aliases.error_type(), "E");
    assert_eq!(
        with_aliases.message().id().as_text().map(|s| s.as_str()),
        Some("m1")
    );
    assert!(with_aliases.message().parse_urls());
    assert_eq!(with_aliases.message().u().id(), "u1");
    assert_eq!(with_aliases.message().u().username(), "bob");
}

#[test]
fn canonical_spelling_wins_over_alias() {
    let r = decode_reply("{\"error_type\":\"canon\",\"errorType\":\"alias\"}").unwrap();
    assert_eq!(r.error_type(), "canon");
}

#[test]
fn message_id_tolerates_both_wire_shapes() {
    let flag = decode_reply("{\"message\":{\"_id\":true}}").unwrap();
    assert_eq!(flag.message().id().as_flag(), Some(true));
    assert!(flag.message().id().as_text().is_none());
    let text = decode_reply("{\"message\":{\"_id\":\"abc\"}}").unwrap();
    assert_eq!(
        text.message().id().as_text().map(|s| s.as_str()),
        Some("abc")
    );
    assert!(text.message().id().as_flag().is_none());
    assert!(text.message().id().is_present());
}

#[test]
fn wrongly_shaped_members_are_shape_errors() {
    assert_eq!(
        decode_reply("{\"success\":\"yes\"}"),
        Err(DecodeError::Shape)
    );
    assert_eq!(decode_reply("{\"ts\":17}"), Err(DecodeError::Shape));
    assert_eq!(
        decode_reply("{\"ts\":\"not a date\"}"),
        Err(DecodeError::Shape)
    );
    assert_eq!(decode_reply("{\"message\":[]}"), Err(DecodeError::Shape));
    assert_eq!(
        decode_reply("{\"message\":{\"_id\":[]}}"),
        Err(DecodeError::Shape)
    );
    assert_eq!(decode_reply("[1,2,3]"), Err(DecodeError::Shape));
    assert_eq!(decode_reply("\"hello\""), Err(DecodeError::Shape));
}

#[test]
fn ill_formed_text_is_a_syntax_error() {
    assert_eq!(decode_reply(""), Err(DecodeError::Syntax));
    assert_eq!(decode_reply("{"), Err(DecodeError::Syntax));
    assert_eq!(decode_reply("{\"a\":}"), Err(DecodeError::Syntax));
    assert_eq!(decode_reply("{} trailing"), Err(DecodeError::Syntax));
    assert_eq!(decode_reply("nope"), Err(DecodeError::Syntax));
}
