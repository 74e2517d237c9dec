//! The outbound payload: builder behavior, omission rules, ordering, and
//! the exact JSON text that leaves the library.

use rocket_notify::json::Json;
use rocket_notify::parse::parse_json;
use rocket_notify::rocketchat::{Attachment, AttachmentField, DecodeError, Message};

fn obj_pairs(j: &Json) -> &Vec<(String, Json)> {
    match j {
        Json::Obj(pairs) => pairs,
        _ => panic!("expected an object"),
    }
}

fn get<'a>(j: &'a Json, key: &str) -> Option<&'a Json> {
    obj_pairs(j)
        .iter()
        .find(|(k, _)| k == key)
        .map(|(_, v)| v)
}

fn str_of(j: &Json) -> &str {
    match j {
        Json::Str(s) => s.as_str(),
        _ => panic!("expected a string"),
    }
}

#[test]
fn room_id_then_channel_keeps_channel() {
    let m = Message::new().room_id("r1").channel("#general");
    assert_eq!(m.encode(), "{\"channel\":\"#general\",\"attachments\":[]}");
}

#[test]
fn channel_then_room_id_keeps_room_id() {
    let m = Message::new().channel("#general").room_id("r1");
    assert_eq!(m.encode(), "{\"roomId\":\"r1\",\"attachments\":[]}");
}

#[test]
fn empty_channel_does_not_clear_room_id() {
    let m = Message::new().room_id("r1").channel("");
    assert_eq!(m.encode(), "{\"roomId\":\"r1\",\"attachments\":[]}");
}

#[test]
fn empty_message_still_carries_attachments() {
    assert_eq!(Message::new().encode(), "{\"attachments\":[]}");
}

#[test]
fn optional_strings_are_omitted_when_empty() {
    let m = Message::new()
        .channel("@bob")
        .text("hello")
        .alias("")
        .emoji(":rocket:");
    assert_eq!(
        m.encode(),
        "{\"channel\":\"@bob\",\"text\":\"hello\",\"emoji\":\":rocket:\",\"attachments\":[]}"
    );
}

#[test]
fn default_attachment_serializes_to_timestamp_only() {
    let a = Attachment::new();
    let text = rocket_notify::json::render_json(&a.to_json());
    let parsed = parse_json(&text).expect("attachment text must parse back");
    let pairs = obj_pairs(&parsed);
    assert_eq!(pairs.len(), 1);
    assert_eq!(pairs[0].0, "ts");
    let ts = str_of(&pairs[0].1);
    assert!(ts.contains('T'));
    assert!(ts.contains("+00:00"));
}

#[test]
fn default_field_serializes_to_empty_object() {
    let f = AttachmentField::new();
    assert_eq!(rocket_notify::json::render_json(&f.to_json()), "{}");
}

#[test]
fn short_field_members_appear_in_order() {
    let f = AttachmentField::new().short(true).title("col").value("42");
    assert_eq!(
        rocket_notify::json::render_json(&f.to_json()),
        "{\"short\":true,\"title\":\"col\",\"value\":\"42\"}"
    );
}

#[test]
fn collapsed_does_not_refresh_timestamp() {
    let a = Attachment::new();
    let before = a.ts_millis();
    let a = a.collapsed(true);
    assert_eq!(a.ts_millis(), before);
    let a = a.title_link_download(true).thumb_url("http://x/y.png");
    assert_eq!(a.ts_millis(), before);
}

#[test]
fn color_refreshes_timestamp_forward() {
    let a = Attachment::new();
    let before = a.ts_millis();
    let a = a.color("green");
    assert!(a.ts_millis() >= before);
    let mid = a.ts_millis();
    let a = a.text("body");
    assert!(a.ts_millis() >= mid);
    let late = a.ts_millis();
    let a = a.title("head");
    assert!(a.ts_millis() >= late);
}

#[test]
fn fields_keep_their_order() {
    let a = Attachment::new()
        .field(AttachmentField::new().title("first").value("1"))
        .field(AttachmentField::new().title("second").value("2"));
    let text = rocket_notify::json::render_json(&a.to_json());
    let parsed = parse_json(&text).unwrap();
    let fields = match get(&parsed, "fields").expect("fields entry must be present") {
        Json::Arr(items) => items,
        _ => panic!("fields must be an array"),
    };
    assert_eq!(fields.len(), 2);
    assert_eq!(str_of(get(&fields[0], "title").unwrap()), "first");
    assert_eq!(str_of(get(&fields[1], "title").unwrap()), "second");
}

#[test]
fn replacing_fields_drops_the_old_ones() {
    let a = Attachment::new()
        .field(AttachmentField::new().title("old"))
        .fields(vec![AttachmentField::new().title("new")]);
    let text = rocket_notify::json::render_json(&a.to_json());
    let parsed = parse_json(&text).unwrap();
    let fields = match get(&parsed, "fields").unwrap() {
        Json::Arr(items) => items,
        _ => panic!("fields must be an array"),
    };
    assert_eq!(fields.len(), 1);
    assert_eq!(str_of(get(&fields[0], "title").unwrap()), "new");
}

#[test]
fn full_scenario_serializes_expected_shape() {
    let m = Message::new()
        .channel("@alice")
        .text("hi")
        .attachment(
            Attachment::new()
                .title("T")
                .color("#112233")
                .collapsed(true),
        );
    let parsed = parse_json(&m.encode()).unwrap();
    assert_eq!(str_of(get(&parsed, "channel").unwrap()), "@alice");
    assert_eq!(str_of(get(&parsed, "text").unwrap()), "hi");
    assert!(get(&parsed, "roomId").is_none());
    assert!(get(&parsed, "room_id").is_none());
    let attachments = match get(&parsed, "attachments").unwrap() {
        Json::Arr(items) => items,
        _ => panic!("attachments must be an array"),
    };
    assert_eq!(attachments.len(), 1);
    let a = &attachments[0];
    assert_eq!(str_of(get(a, "title").unwrap()), "T");
    assert_eq!(str_of(get(a, "color").unwrap()), "#112233");
    assert_eq!(get(a, "collapsed"), Some(&Json::Bool(true)));
    assert!(get(a, "text").is_none());
}

#[test]
fn fully_populated_attachment_keeps_declaration_order() {
    let a = Attachment::new()
        .color("red")
        .text("body")
        .thumb_url("t")
        .message_link("m")
        .collapsed(true)
        .author_name("an")
        .author_link("al")
        .author_icon("ai")
        .title("ti")
        .title_link("tl")
        .title_link_download(true)
        .image_url("iu")
        .audio_url("au")
        .video_url("vu")
        .field(AttachmentField::new().title("f"));
    let text = rocket_notify::json::render_json(&a.to_json());
    let parsed = parse_json(&text).unwrap();
    let keys: Vec<&str> = obj_pairs(&parsed).iter().map(|(k, _)| k.as_str()).collect();
    assert_eq!(
        keys,
        vec![
            "color",
            "text",
            "ts",
            "thumb_url",
            "message_link",
            "collapsed",
            "author_name",
            "author_link",
            "author_icon",
            "title",
            "title_link",
            "title_link_download",
            "image_url",
            "audio_url",
            "video_url",
            "fields",
        ]
    );
}

#[test]
fn replacing_attachments_drops_the_old_ones() {
    let m = Message::new()
        .channel("@erin")
        .attachment(Attachment::new().title("old"))
        .attachments(vec![
            Attachment::new().title("one"),
            Attachment::new().title("two"),
        ]);
    let parsed = parse_json(&m.encode()).unwrap();
    let attachments = match get(&parsed, "attachments").unwrap() {
        Json::Arr(items) => items,
        _ => panic!("attachments must be an array"),
    };
    assert_eq!(attachments.len(), 2);
    assert_eq!(str_of(get(&attachments[0], "title").unwrap()), "one");
    assert_eq!(str_of(get(&attachments[1], "title").unwrap()), "two");
}

#[test]
fn avatar_does_not_clear_emoji() {
    let m = Message::new()
        .channel("@carol")
        .emoji(":computer:")
        .avatar("http://x/a.png");
    let parsed = parse_json(&m.encode()).unwrap();
    assert_eq!(str_of(get(&parsed, "emoji").unwrap()), ":computer:");
    assert_eq!(str_of(get(&parsed, "avatar").unwrap()), "http://x/a.png");
}

#[test]
fn payload_text_reads_back_as_the_same_message() {
    let m = Message::new()
        .channel("#general")
        .text("title line")
        .alias("bot")
        .emoji(":rocket:")
        .attachment(
            Attachment::new()
                .title("T")
                .text("body")
                .color("#112233")
                .collapsed(true)
                .field(AttachmentField::new().short(true).title("k").value("v")),
        );
    let text = m.encode();
    let back = Message::decode(&text).expect("own payload must read back");
    assert_eq!(back.encode(), text);
}

#[test]
fn destination_is_accepted_under_either_spelling() {
    let canonical = Message::decode("{\"roomId\":\"r1\",\"attachments\":[]}").unwrap();
    let snake = Message::decode("{\"room_id\":\"r1\",\"attachments\":[]}").unwrap();
    assert_eq!(canonical.encode(), snake.encode());
    assert_eq!(canonical.encode(), "{\"roomId\":\"r1\",\"attachments\":[]}");
}

#[test]
fn a_document_naming_both_destinations_is_refused() {
    assert!(matches!(
        Message::decode("{\"roomId\":\"r1\",\"channel\":\"#c\",\"attachments\":[]}"),
        Err(DecodeError::Shape)
    ));
}

#[test]
fn a_message_document_requires_attachments() {
    assert!(matches!(Message::decode("{}"), Err(DecodeError::Shape)));
    assert!(matches!(
        Message::decode("{\"attachments\":[{}]}"),
        Err(DecodeError::Shape)
    ));
    assert!(matches!(Message::decode("not json"), Err(DecodeError::Syntax)));
}

#[test]
fn string_content_is_escaped() {
    let m = Message::new().channel("@d").text("a\"b\\c\nd");
    assert_eq!(
        m.encode(),
        "{\"channel\":\"@d\",\"text\":\"a\\\"b\\\\c\\u000ad\",\"attachments\":[]}"
    );
}
