//! The JSON reader and writer: round trips, escapes, numbers, and the
//! texts the reader refuses.

use rocket_notify::json::{render_json, Json};
use rocket_notify::parse::parse_json;
use rocket_notify::rocketchat::Client;

fn round_trips(text: &str) {
    let parsed = parse_json(text).expect("text must parse");
    assert_eq!(render_json(&parsed), text);
}

#[test]
fn scalars_round_trip() {
    round_trips("null");
    round_trips("true");
    round_trips("false");
    round_trips("0");
    round_trips("-17.25e3");
    round_trips("\"hello\"");
    round_trips("\"\"");
}

#[test]
fn containers_round_trip() {
    round_trips("[]");
    round_trips("{}");
    round_trips("[1,2,[3,{\"a\":null}]]");
    round_trips("{\"a\":{\"b\":[true,false]},\"c\":\"d\"}");
}

#[test]
fn whitespace_is_accepted_and_normalized() {
    let parsed = parse_json(" { \"a\" : [ 1 , 2 ] , \"b\" : null } ").unwrap();
    assert_eq!(render_json(&parsed), "{\"a\":[1,2],\"b\":null}");
}

#[test]
fn escapes_are_unescaped_on_the_way_in() {
    let parsed = parse_json("\"a\\\"b\\\\c\\/d\\n\\t\\u0041\"").unwrap();
    assert_eq!(parsed, Json::Str(String::from("a\"b\\c/d\n\tA")));
}

#[test]
fn surrogate_pairs_combine_into_one_character() {
    let parsed = parse_json("\"\\uD83D\\uDE00\"").unwrap();
    assert_eq!(parsed, Json::Str(String::from("\u{1F600}")));
}

#[test]
fn non_ascii_text_passes_through() {
    let parsed = parse_json("\"grüße 東京\"").unwrap();
    assert_eq!(parsed, Json::Str(String::from("grüße 東京")));
    assert_eq!(render_json(&parsed), "\"grüße 東京\"");
}

#[test]
fn control_characters_are_escaped_on_the_way_out() {
    let j = Json::Str(String::from("a\u{1}b"));
    assert_eq!(render_json(&j), "\"a\\u0001b\"");
}

#[test]
fn ill_formed_texts_are_refused() {
    assert!(parse_json("").is_err());
    assert!(parse_json("[1,").is_err());
    assert!(parse_json("[1 2]").is_err());
    assert!(parse_json("{\"a\" 1}").is_err());
    assert!(parse_json("{a:1}").is_err());
    assert!(parse_json("\"unterminated").is_err());
    assert!(parse_json("\"bad \\x escape\"").is_err());
    assert!(parse_json("\"lone \\uD800 surrogate\"").is_err());
    assert!(parse_json("tru").is_err());
    assert!(parse_json("nulll").is_err());
    assert!(parse_json("1 1").is_err());
}

#[test]
fn client_keeps_its_url() {
    let c = Client::new("https://chat.example/hooks/abc");
    assert_eq!(c.url(), "https://chat.example/hooks/abc");
}
