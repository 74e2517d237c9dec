//! The outbound payload model: attachment fields, attachments, and messages,
//! built through chained value-builder calls and serialized to JSON text
//! with exact field-omission rules.

use vstd::prelude::*;
use vstd::string::StrSliceExecFns;
use vstd::string::StringExecFns;

use crate::json::{
    jv, jv_lookup, jv_pairs, jv_seq, lemma_jv_lookup_append, lemma_jv_pairs_push,
    lemma_jv_seq_index, lemma_jv_seq_push, lemma_keys_ne_append, render, render_json, Json,
    JsonV,
};
use crate::parse::{lemma_parse_render, sp_parse_json, sp_wf, sp_wf_pairs, sp_wf_seq};
use crate::response::{d_bool, d_str, get2, DecodeError};
use crate::timefmt::{
    now_epoch_millis, rfc3339_of_millis, rfc3339_parse, rfc3339_text, rfc3339_to_millis,
    TS_MAX_MILLIS,
};

verus! {

/// A small key/value annotation attached to an [`Attachment`], with a
/// "short" (side-by-side) display hint.
#[derive(Debug)]
pub struct AttachmentField {
    short: bool,
    title: String,
    value: String,
}

/// The mathematical value of an [`AttachmentField`].
#[verifier::ext_equal]
pub ghost struct AttachmentFieldV {
    pub short: bool,
    pub title: Seq<char>,
    pub value: Seq<char>,
}

impl View for AttachmentField {
    type V = AttachmentFieldV;

    closed spec fn view(&self) -> AttachmentFieldV {
        AttachmentFieldV { short: self.short, title: self.title@, value: self.value@ }
    }
}

impl AttachmentField {
    /// Create a new field with every member at its default: `short` false,
    /// `title` and `value` empty.
    pub fn new() -> (r: Self)
        ensures
            r@ == (AttachmentFieldV {
                short: false,
                title: Seq::<char>::empty(),
                value: Seq::<char>::empty(),
            }),
    {
        AttachmentField { short: false, title: String::new(), value: String::new() }
    }

    /// Set whether the field should be a short (side-by-side) field.
    pub fn short(self, short: bool) -> (r: Self)
        ensures
            r@ == (AttachmentFieldV { short: short, ..self@ }),
    {
        let mut f = self;
        f.short = short;
        f
    }

    /// Set the title of the field.
    pub fn title(self, title: &str) -> (r: Self)
        ensures
            r@ == (AttachmentFieldV { title: title@, ..self@ }),
    {
        let mut f = self;
        f.title = title.to_owned();
        f
    }

    /// Set the value of the field, displayed underneath the title.
    pub fn value(self, value: &str) -> (r: Self)
        ensures
            r@ == (AttachmentFieldV { value: value@, ..self@ }),
    {
        let mut f = self;
        f.value = value.to_owned();
        f
    }
}

/// A rich-content block attached to a [`Message`]: a color bar, body text,
/// media links, a collapsed state, nested fields, and a "last touched"
/// timestamp in milliseconds since the Unix epoch.
#[derive(Debug)]
pub struct Attachment {
    color: String,
    text: String,
    ts: i64,
    thumb_url: String,
    message_link: String,
    collapsed: bool,
    author_name: String,
    author_link: String,
    author_icon: String,
    title: String,
    title_link: String,
    title_link_download: bool,
    image_url: String,
    audio_url: String,
    video_url: String,
    fields: Vec<AttachmentField>,
}

/// The mathematical value of an [`Attachment`].
#[verifier::ext_equal]
pub ghost struct AttachmentV {
    pub color: Seq<char>,
    pub text: Seq<char>,
    pub ts: int,
    pub thumb_url: Seq<char>,
    pub message_link: Seq<char>,
    pub collapsed: bool,
    pub author_name: Seq<char>,
    pub author_link: Seq<char>,
    pub author_icon: Seq<char>,
    pub title: Seq<char>,
    pub title_link: Seq<char>,
    pub title_link_download: bool,
    pub image_url: Seq<char>,
    pub audio_url: Seq<char>,
    pub video_url: Seq<char>,
    pub fields: Seq<AttachmentFieldV>,
}

impl View for Attachment {
    type V = AttachmentV;

    closed spec fn view(&self) -> AttachmentV {
        AttachmentV {
            color: self.color@,
            text: self.text@,
            ts: self.ts as int,
            thumb_url: self.thumb_url@,
            message_link: self.message_link@,
            collapsed: self.collapsed,
            author_name: self.author_name@,
            author_link: self.author_link@,
            author_icon: self.author_icon@,
            title: self.title@,
            title_link: self.title_link@,
            title_link_download: self.title_link_download,
            image_url: self.image_url@,
            audio_url: self.audio_url@,
            video_url: self.video_url@,
            fields: self.fields@.map_values(|f: AttachmentField| f@),
        }
    }
}

/// An attachment whose every optional member still has its default value.
pub open spec fn blank_attachment(a: AttachmentV) -> bool {
    &&& a.color.len() == 0
    &&& a.text.len() == 0
    &&& a.thumb_url.len() == 0
    &&& a.message_link.len() == 0
    &&& !a.collapsed
    &&& a.author_name.len() == 0
    &&& a.author_link.len() == 0
    &&& a.author_icon.len() == 0
    &&& a.title.len() == 0
    &&& a.title_link.len() == 0
    &&& !a.title_link_download
    &&& a.image_url.len() == 0
    &&& a.audio_url.len() == 0
    &&& a.video_url.len() == 0
    &&& a.fields.len() == 0
}

impl Attachment {
    /// The timestamp stays inside the range the library can format as a
    /// calendar date.
    #[verifier::type_invariant]
    spec fn ts_in_range(self) -> bool {
        0 <= self.ts <= TS_MAX_MILLIS
    }

    /// Create a new attachment with every optional member at its default
    /// and the timestamp at the current time.
    pub fn new() -> (r: Self)
        ensures
            blank_attachment(r@),
            0 <= r@.ts <= TS_MAX_MILLIS,
    {
        let n = now_epoch_millis();
        let ts: i64 = if n < 0 {
            0
        } else if n > TS_MAX_MILLIS {
            TS_MAX_MILLIS
        } else {
            n
        };
        let r = Attachment {
            color: String::new(),
            text: String::new(),
            ts,
            thumb_url: String::new(),
            message_link: String::new(),
            collapsed: false,
            author_name: String::new(),
            author_link: String::new(),
            author_icon: String::new(),
            title: String::new(),
            title_link: String::new(),
            title_link_download: false,
            image_url: String::new(),
            audio_url: String::new(),
            video_url: String::new(),
            fields: Vec::new(),
        };
        proof {
            assert(r@.fields =~= Seq::<AttachmentFieldV>::empty());
        }
        r
    }

    /// The "last touched" timestamp, in milliseconds since the Unix
    /// epoch.
    pub fn ts_millis(&self) -> (r: i64)
        ensures
            r as int == self@.ts,
    {
        self.ts
    }

    /// Move the "last touched" timestamp forward to the current time; the
    /// clock never moves it backward or out of range.
    fn update_ts(self) -> (r: Self)
        ensures
            self@.ts <= r@.ts <= TS_MAX_MILLIS,
            (AttachmentV { ts: self@.ts, ..r@ }) == self@,
    {
        proof {
            use_type_invariant(&self);
        }
        let mut a = self;
        let n = now_epoch_millis();
        if n > a.ts && n <= TS_MAX_MILLIS {
            a.ts = n;
        }
        a
    }

    /// Set the color of the attachment's left border; any CSS color token
    /// is passed through unvalidated. Refreshes the timestamp.
    pub fn color(self, color: &str) -> (r: Self)
        ensures
            r@.color == color@,
            self@.ts <= r@.ts <= TS_MAX_MILLIS,
            (AttachmentV { color: self@.color, ts: self@.ts, ..r@ }) == self@,
    {
        proof {
            use_type_invariant(&self);
        }
        let mut a = self;
        a.color = color.to_owned();
        a.update_ts()
    }

    /// Set the attachment's body text, distinct from the message's text.
    /// Refreshes the timestamp.
    pub fn text(self, text: &str) -> (r: Self)
        ensures
            r@.text == text@,
            self@.ts <= r@.ts <= TS_MAX_MILLIS,
            (AttachmentV { text: self@.text, ts: self@.ts, ..r@ }) == self@,
    {
        proof {
            use_type_invariant(&self);
        }
        let mut a = self;
        a.text = text.to_owned();
        a.update_ts()
    }

    /// Set an image that displays to the left of the text.
    pub fn thumb_url(self, thumb_url: &str) -> (r: Self)
        ensures
            r@ == (AttachmentV { thumb_url: thumb_url@, ..self@ }),
    {
        proof {
            use_type_invariant(&self);
        }
        let mut a = self;
        a.thumb_url = thumb_url.to_owned();
        a
    }

    /// Make the attachment's time a clickable link.
    pub fn message_link(self, message_link: &str) -> (r: Self)
        ensures
            r@ == (AttachmentV { message_link: message_link@, ..self@ }),
    {
        proof {
            use_type_invariant(&self);
        }
        let mut a = self;
        a.message_link = message_link.to_owned();
        a
    }

    /// Set the image, audio, and video sections to be collapsed. Does not
    /// touch the timestamp.
    pub fn collapsed(self, collapsed: bool) -> (r: Self)
        ensures
            r@ == (AttachmentV { collapsed: collapsed, ..self@ }),
    {
        proof {
            use_type_invariant(&self);
        }
        let mut a = self;
        a.collapsed = collapsed;
        a
    }

    /// Set the name of the message author.
    pub fn author_name(self, author_name: &str) -> (r: Self)
        ensures
            r@ == (AttachmentV { author_name: author_name@, ..self@ }),
    {
        proof {
            use_type_invariant(&self);
        }
        let mut a = self;
        a.author_name = author_name.to_owned();
        a
    }

    /// Make the author's name a clickable link.
    pub fn author_link(self, author_link: &str) -> (r: Self)
        ensures
            r@ == (AttachmentV { author_link: author_link@, ..self@ }),
    {
        proof {
            use_type_invariant(&self);
        }
        let mut a = self;
        a.author_link = author_link.to_owned();
        a
    }

    /// Set a tiny icon to the left of the author's name.
    pub fn author_icon(self, author_icon: &str) -> (r: Self)
        ensures
            r@ == (AttachmentV { author_icon: author_icon@, ..self@ }),
    {
        proof {
            use_type_invariant(&self);
        }
        let mut a = self;
        a.author_icon = author_icon.to_owned();
        a
    }

    /// Set the title of the attachment, displayed under the author.
    /// Refreshes the timestamp.
    pub fn title(self, title: &str) -> (r: Self)
        ensures
            r@.title == title@,
            self@.ts <= r@.ts <= TS_MAX_MILLIS,
            (AttachmentV { title: self@.title, ts: self@.ts, ..r@ }) == self@,
    {
        proof {
            use_type_invariant(&self);
        }
        let mut a = self;
        a.title = title.to_owned();
        a.update_ts()
    }

    /// Make the attachment's title a clickable link.
    pub fn title_link(self, title_link: &str) -> (r: Self)
        ensures
            r@ == (AttachmentV { title_link: title_link@, ..self@ }),
    {
        proof {
            use_type_invariant(&self);
        }
        let mut a = self;
        a.title_link = title_link.to_owned();
        a
    }

    /// Enable a download icon on the attachment that saves the title link
    /// to a file.
    pub fn title_link_download(self, title_link_download: bool) -> (r: Self)
        ensures
            r@ == (AttachmentV { title_link_download: title_link_download, ..self@ }),
    {
        proof {
            use_type_invariant(&self);
        }
        let mut a = self;
        a.title_link_download = title_link_download;
        a
    }

    /// Set a large, easy-to-see image to display.
    pub fn image_url(self, image_url: &str) -> (r: Self)
        ensures
            r@ == (AttachmentV { image_url: image_url@, ..self@ }),
    {
        proof {
            use_type_invariant(&self);
        }
        let mut a = self;
        a.image_url = image_url.to_owned();
        a
    }

    /// Set an audio file to play.
    pub fn audio_url(self, audio_url: &str) -> (r: Self)
        ensures
            r@ == (AttachmentV { audio_url: audio_url@, ..self@ }),
    {
        proof {
            use_type_invariant(&self);
        }
        let mut a = self;
        a.audio_url = audio_url.to_owned();
        a
    }

    /// Set a video file to play.
    pub fn video_url(self, video_url: &str) -> (r: Self)
        ensures
            r@ == (AttachmentV { video_url: video_url@, ..self@ }),
    {
        proof {
            use_type_invariant(&self);
        }
        let mut a = self;
        a.video_url = video_url.to_owned();
        a
    }

    /// Append one [`AttachmentField`] to the attachment, after the fields
    /// already present.
    pub fn field(self, field: AttachmentField) -> (r: Self)
        ensures
            r@ == (AttachmentV { fields: self@.fields.push(field@), ..self@ }),
    {
        proof {
            use_type_invariant(&self);
        }
        let mut a = self;
        let ghost fv = field@;
        let ghost before = a.fields@;
        let mut fs: Vec<AttachmentField> = Vec::new();
        core::mem::swap(&mut fs, &mut a.fields);
        fs.push(field);
        core::mem::swap(&mut fs, &mut a.fields);
        proof {
            assert(a.fields@.map_values(|f: AttachmentField| f@) =~= before.map_values(
                |f: AttachmentField| f@,
            ).push(fv));
        }
        a
    }

    /// Replace the whole ordered sequence of fields.
    pub fn fields(self, fields: Vec<AttachmentField>) -> (r: Self)
        ensures
            r@ == (AttachmentV { fields: fields@.map_values(|f: AttachmentField| f@), ..self@ }),
    {
        proof {
            use_type_invariant(&self);
        }
        let mut a = self;
        a.fields = fields;
        a
    }
}

/// The top-level payload: a destination (room id or channel, mutually
/// exclusive), text, sender alias and icon, and attachments.
#[derive(Debug)]
pub struct Message {
    room_id: String,
    channel: String,
    text: String,
    alias: String,
    emoji: String,
    avatar: String,
    attachments: Vec<Attachment>,
}

/// The mathematical value of a [`Message`].
#[verifier::ext_equal]
pub ghost struct MessageV {
    pub room_id: Seq<char>,
    pub channel: Seq<char>,
    pub text: Seq<char>,
    pub alias: Seq<char>,
    pub emoji: Seq<char>,
    pub avatar: Seq<char>,
    pub attachments: Seq<AttachmentV>,
}

impl View for Message {
    type V = MessageV;

    closed spec fn view(&self) -> MessageV {
        MessageV {
            room_id: self.room_id@,
            channel: self.channel@,
            text: self.text@,
            alias: self.alias@,
            emoji: self.emoji@,
            avatar: self.avatar@,
            attachments: self.attachments@.map_values(|a: Attachment| a@),
        }
    }
}

/// What setting the room id leaves behind: the new room id, and a channel
/// cleared whenever both destinations would otherwise be non-empty.
pub open spec fn with_room_id(m: MessageV, s: Seq<char>) -> MessageV {
    MessageV {
        room_id: s,
        channel: if s.len() > 0 && m.channel.len() > 0 {
            Seq::<char>::empty()
        } else {
            m.channel
        },
        ..m
    }
}

/// What setting the channel leaves behind, symmetrically.
pub open spec fn with_channel(m: MessageV, s: Seq<char>) -> MessageV {
    MessageV {
        channel: s,
        room_id: if s.len() > 0 && m.room_id.len() > 0 {
            Seq::<char>::empty()
        } else {
            m.room_id
        },
        ..m
    }
}

impl Message {
    /// At most one destination selector is set at a time.
    #[verifier::type_invariant]
    spec fn one_destination(self) -> bool {
        self.room_id@.len() == 0 || self.channel@.len() == 0
    }

    /// Create a new message with every member at its default.
    pub fn new() -> (r: Self)
        ensures
            r@ == (MessageV {
                room_id: Seq::<char>::empty(),
                channel: Seq::<char>::empty(),
                text: Seq::<char>::empty(),
                alias: Seq::<char>::empty(),
                emoji: Seq::<char>::empty(),
                avatar: Seq::<char>::empty(),
                attachments: Seq::<AttachmentV>::empty(),
            }),
    {
        let r = Message {
            room_id: String::new(),
            channel: String::new(),
            text: String::new(),
            alias: String::new(),
            emoji: String::new(),
            avatar: String::new(),
            attachments: Vec::new(),
        };
        proof {
            assert(r@.attachments =~= Seq::<AttachmentV>::empty());
        }
        r
    }

    /// Set the room id the message is sent to; a non-empty room id clears
    /// any channel set before it.
    pub fn room_id(self, room_id: &str) -> (r: Self)
        ensures
            r@ == with_room_id(self@, room_id@),
    {
        proof {
            use_type_invariant(&self);
        }
        let mut m = self;
        if !m.channel.as_str().is_empty() && !room_id.is_empty() {
            m.channel = String::new();
        }
        m.room_id = room_id.to_owned();
        m
    }

    /// Set the channel the message is sent to, with its prefix: `#` names
    /// a channel, `@` a username. A non-empty channel clears any room id
    /// set before it.
    pub fn channel(self, channel: &str) -> (r: Self)
        ensures
            r@ == with_channel(self@, channel@),
    {
        proof {
            use_type_invariant(&self);
        }
        let mut m = self;
        if !m.room_id.as_str().is_empty() && !channel.is_empty() {
            m.room_id = String::new();
        }
        m.channel = channel.to_owned();
        m
    }

    /// Set the text of the message; text is optional because a message may
    /// carry only attachments.
    pub fn text(self, text: &str) -> (r: Self)
        ensures
            r@ == (MessageV { text: text@, ..self@ }),
    {
        proof {
            use_type_invariant(&self);
        }
        let mut m = self;
        m.text = text.to_owned();
        m
    }

    /// Set the display name the message appears under.
    pub fn alias(self, alias: &str) -> (r: Self)
        ensures
            r@ == (MessageV { alias: alias@, ..self@ }),
    {
        proof {
            use_type_invariant(&self);
        }
        let mut m = self;
        m.alias = alias.to_owned();
        m
    }

    /// Set the sender's icon to an emoji shortcode.
    pub fn emoji(self, emoji: &str) -> (r: Self)
        ensures
            r@ == (MessageV { emoji: emoji@, ..self@ }),
    {
        proof {
            use_type_invariant(&self);
        }
        let mut m = self;
        m.emoji = emoji.to_owned();
        m
    }

    /// Set the sender's icon to an image URL; the receiving server prefers
    /// the avatar over the emoji, but the model clears neither.
    pub fn avatar(self, avatar: &str) -> (r: Self)
        ensures
            r@ == (MessageV { avatar: avatar@, ..self@ }),
    {
        proof {
            use_type_invariant(&self);
        }
        let mut m = self;
        m.avatar = avatar.to_owned();
        m
    }

    /// Append one [`Attachment`] to the message, after those already
    /// present.
    pub fn attachment(self, attachment: Attachment) -> (r: Self)
        ensures
            r@ == (MessageV { attachments: self@.attachments.push(attachment@), ..self@ }),
    {
        proof {
            use_type_invariant(&self);
        }
        let mut m = self;
        let ghost av = attachment@;
        let ghost before = m.attachments@;
        let mut ats: Vec<Attachment> = Vec::new();
        core::mem::swap(&mut ats, &mut m.attachments);
        ats.push(attachment);
        core::mem::swap(&mut ats, &mut m.attachments);
        proof {
            assert(m.attachments@.map_values(|a: Attachment| a@) =~= before.map_values(
                |a: Attachment| a@,
            ).push(av));
        }
        m
    }

    /// Replace the whole ordered sequence of attachments.
    pub fn attachments(self, attachments: Vec<Attachment>) -> (r: Self)
        ensures
            r@ == (MessageV {
                attachments: attachments@.map_values(|a: Attachment| a@),
                ..self@
            }),
    {
        proof {
            use_type_invariant(&self);
        }
        let mut m = self;
        m.attachments = attachments;
        m
    }
}

/// One `key: string` entry, omitted when the string is empty.
pub open spec fn str_pair_opt(key: Seq<char>, s: Seq<char>) -> Seq<(Seq<char>, JsonV)> {
    if s.len() == 0 {
        Seq::<(Seq<char>, JsonV)>::empty()
    } else {
        seq![(key, JsonV::Str(s))]
    }
}

/// One `key: bool` entry, omitted when the flag is false.
pub open spec fn bool_pair_opt(key: Seq<char>, b: bool) -> Seq<(Seq<char>, JsonV)> {
    if !b {
        Seq::<(Seq<char>, JsonV)>::empty()
    } else {
        seq![(key, JsonV::Bool(true))]
    }
}

/// One `key: array` entry, omitted when the array is empty.
pub open spec fn arr_pair_opt(key: Seq<char>, items: Seq<JsonV>) -> Seq<(Seq<char>, JsonV)> {
    if items.len() == 0 {
        Seq::<(Seq<char>, JsonV)>::empty()
    } else {
        seq![(key, JsonV::Arr(items))]
    }
}

/// The serialized document of one attachment field: `short`, `title` and
/// `value`, each omitted at its default.
pub open spec fn field_jv(f: AttachmentFieldV) -> JsonV {
    JsonV::Obj(
        bool_pair_opt("short"@, f.short) + str_pair_opt("title"@, f.title) + str_pair_opt(
            "value"@,
            f.value,
        ),
    )
}

/// The serialized documents of a sequence of attachment fields, in order.
pub open spec fn fields_jv(fs: Seq<AttachmentFieldV>) -> Seq<JsonV> {
    fs.map_values(|f: AttachmentFieldV| field_jv(f))
}

/// The serialized document of one attachment: every optional member is
/// omitted at its default, the timestamp is always present as an RFC 3339
/// string under `ts`, and the fields keep their order.
pub open spec fn attachment_jv(a: AttachmentV) -> JsonV {
    JsonV::Obj(
        str_pair_opt("color"@, a.color) + str_pair_opt("text"@, a.text) + seq![
            ("ts"@, JsonV::Str(rfc3339_text(a.ts))),
        ] + str_pair_opt("thumb_url"@, a.thumb_url) + str_pair_opt("message_link"@, a.message_link)
            + bool_pair_opt("collapsed"@, a.collapsed) + str_pair_opt(
            "author_name"@,
            a.author_name,
        ) + str_pair_opt("author_link"@, a.author_link) + str_pair_opt(
            "author_icon"@,
            a.author_icon,
        ) + str_pair_opt("title"@, a.title) + str_pair_opt("title_link"@, a.title_link)
            + bool_pair_opt("title_link_download"@, a.title_link_download) + str_pair_opt(
            "image_url"@,
            a.image_url,
        ) + str_pair_opt("audio_url"@, a.audio_url) + str_pair_opt("video_url"@, a.video_url)
            + arr_pair_opt("fields"@, fields_jv(a.fields)),
    )
}

/// The serialized documents of a sequence of attachments, in order.
pub open spec fn attachments_jv(ats: Seq<AttachmentV>) -> Seq<JsonV> {
    ats.map_values(|a: AttachmentV| attachment_jv(a))
}

/// The serialized document of a message: every optional string is omitted
/// when empty, and `attachments` is always present, even when empty.
pub open spec fn message_jv(m: MessageV) -> JsonV {
    JsonV::Obj(
        str_pair_opt("roomId"@, m.room_id) + str_pair_opt("channel"@, m.channel) + str_pair_opt(
            "text"@,
            m.text,
        ) + str_pair_opt("alias"@, m.alias) + str_pair_opt("emoji"@, m.emoji) + str_pair_opt(
            "avatar"@,
            m.avatar,
        ) + seq![("attachments"@, JsonV::Arr(attachments_jv(m.attachments)))],
    )
}

/// Append a `key: string` entry, or nothing when the string is empty.
fn push_str_entry(out: &mut Vec<(String, Json)>, key: &str, val: &String)
    ensures
        jv_pairs(final(out)@) == jv_pairs(old(out)@) + str_pair_opt(key@, val@),
{
    if !val.as_str().is_empty() {
        let ghost before = out@;
        out.push((key.to_owned(), Json::Str(val.clone())));
        proof {
            let p = out@.last();
            lemma_jv_pairs_push(before, p);
            assert(jv_pairs(out@) =~= jv_pairs(before) + str_pair_opt(key@, val@));
        }
    } else {
        proof {
            assert(jv_pairs(out@) =~= jv_pairs(out@) + str_pair_opt(key@, val@));
        }
    }
}

/// Append a `key: bool` entry, or nothing when the flag is false.
fn push_bool_entry(out: &mut Vec<(String, Json)>, key: &str, b: bool)
    ensures
        jv_pairs(final(out)@) == jv_pairs(old(out)@) + bool_pair_opt(key@, b),
{
    if b {
        let ghost before = out@;
        out.push((key.to_owned(), Json::Bool(true)));
        proof {
            let p = out@.last();
            lemma_jv_pairs_push(before, p);
            assert(jv_pairs(out@) =~= jv_pairs(before) + bool_pair_opt(key@, b));
        }
    } else {
        proof {
            assert(jv_pairs(out@) =~= jv_pairs(out@) + bool_pair_opt(key@, b));
        }
    }
}

/// Append a `key: value` entry unconditionally.
fn push_entry(out: &mut Vec<(String, Json)>, key: &str, val: Json)
    ensures
        jv_pairs(final(out)@) == jv_pairs(old(out)@) + seq![(key@, jv(val))],
{
    let ghost before = out@;
    let ghost gv = val;
    out.push((key.to_owned(), val));
    proof {
        let p = out@.last();
        lemma_jv_pairs_push(before, p);
        assert(jv_pairs(out@) =~= jv_pairs(before) + seq![(key@, jv(gv))]);
    }
}

impl AttachmentField {
    /// The serialized document of this field.
    pub fn to_json(&self) -> (j: Json)
        ensures
            j@ == field_jv(self@),
    {
        let mut pairs: Vec<(String, Json)> = Vec::new();
        push_bool_entry(&mut pairs, "short", self.short);
        proof {
            assert(jv_pairs(pairs@) =~= bool_pair_opt("short"@, self@.short));
        }
        push_str_entry(&mut pairs, "title", &self.title);
        push_str_entry(&mut pairs, "value", &self.value);
        let j = Json::Obj(pairs);
        proof {
            assert(j@ =~= field_jv(self@));
        }
        j
    }
}

/// The serialized documents of the given fields, in their order.
fn fields_to_json(fs: &Vec<AttachmentField>) -> (items: Vec<Json>)
    ensures
        jv_seq(items@) == fields_jv(fs@.map_values(|f: AttachmentField| f@)),
{
    let ghost vs = fs@.map_values(|f: AttachmentField| f@);
    let mut items: Vec<Json> = Vec::new();
    let n = fs.len();
    let mut i: usize = 0;
    while i < n
        invariant
            n == fs@.len(),
            i <= n,
            vs == fs@.map_values(|f: AttachmentField| f@),
            jv_seq(items@) == fields_jv(vs.take(i as int)),
        decreases n - i,
    {
        let j = fs[i].to_json();
        let ghost gj = j;
        let ghost before = items@;
        items.push(j);
        proof {
            lemma_jv_seq_push(before, gj);
            assert(vs.take(i + 1).drop_last() =~= vs.take(i as int));
            assert(fields_jv(vs.take(i + 1)) =~= fields_jv(vs.take(i as int)).push(
                field_jv(vs[i as int]),
            ));
            assert(jv_seq(items@) =~= fields_jv(vs.take(i + 1)));
        }
        i = i + 1;
    }
    proof {
        assert(vs.take(n as int) =~= vs);
    }
    items
}

impl Attachment {
    /// The serialized document of this attachment.
    pub fn to_json(&self) -> (j: Json)
        ensures
            j@ == attachment_jv(self@),
    {
        proof {
            use_type_invariant(&*self);
        }
        let mut pairs: Vec<(String, Json)> = Vec::new();
        push_str_entry(&mut pairs, "color", &self.color);
        proof {
            assert(jv_pairs(pairs@) =~= str_pair_opt("color"@, self@.color));
        }
        push_str_entry(&mut pairs, "text", &self.text);
        push_entry(&mut pairs, "ts", Json::Str(rfc3339_of_millis(self.ts)));
        push_str_entry(&mut pairs, "thumb_url", &self.thumb_url);
        push_str_entry(&mut pairs, "message_link", &self.message_link);
        push_bool_entry(&mut pairs, "collapsed", self.collapsed);
        push_str_entry(&mut pairs, "author_name", &self.author_name);
        push_str_entry(&mut pairs, "author_link", &self.author_link);
        push_str_entry(&mut pairs, "author_icon", &self.author_icon);
        push_str_entry(&mut pairs, "title", &self.title);
        push_str_entry(&mut pairs, "title_link", &self.title_link);
        push_bool_entry(&mut pairs, "title_link_download", self.title_link_download);
        push_str_entry(&mut pairs, "image_url", &self.image_url);
        push_str_entry(&mut pairs, "audio_url", &self.audio_url);
        push_str_entry(&mut pairs, "video_url", &self.video_url);
        if !self.fields.is_empty() {
            let items = fields_to_json(&self.fields);
            push_entry(&mut pairs, "fields", Json::Arr(items));
            proof {
                assert(seq![("fields"@, JsonV::Arr(fields_jv(self@.fields)))] =~= arr_pair_opt(
                    "fields"@,
                    fields_jv(self@.fields),
                ));
            }
        } else {
            proof {
                assert(jv_pairs(pairs@) =~= jv_pairs(pairs@) + arr_pair_opt(
                    "fields"@,
                    fields_jv(self@.fields),
                ));
            }
        }
        let j = Json::Obj(pairs);
        proof {
            assert(j@ =~= attachment_jv(self@));
        }
        j
    }
}

/// The serialized documents of the given attachments, in their order.
fn attachments_to_json(ats: &Vec<Attachment>) -> (items: Vec<Json>)
    ensures
        jv_seq(items@) == attachments_jv(ats@.map_values(|a: Attachment| a@)),
{
    let ghost vs = ats@.map_values(|a: Attachment| a@);
    let mut items: Vec<Json> = Vec::new();
    let n = ats.len();
    let mut i: usize = 0;
    while i < n
        invariant
            n == ats@.len(),
            i <= n,
            vs == ats@.map_values(|a: Attachment| a@),
            jv_seq(items@) == attachments_jv(vs.take(i as int)),
        decreases n - i,
    {
        let j = ats[i].to_json();
        let ghost gj = j;
        let ghost before = items@;
        items.push(j);
        proof {
            lemma_jv_seq_push(before, gj);
            assert(vs.take(i + 1).drop_last() =~= vs.take(i as int));
            assert(attachments_jv(vs.take(i + 1)) =~= attachments_jv(vs.take(i as int)).push(
                attachment_jv(vs[i as int]),
            ));
            assert(jv_seq(items@) =~= attachments_jv(vs.take(i + 1)));
        }
        i = i + 1;
    }
    proof {
        assert(vs.take(n as int) =~= vs);
    }
    items
}

impl Message {
    /// The serialized document of this message.
    pub fn to_json(&self) -> (j: Json)
        ensures
            j@ == message_jv(self@),
    {
        let mut pairs: Vec<(String, Json)> = Vec::new();
        push_str_entry(&mut pairs, "roomId", &self.room_id);
        proof {
            assert(jv_pairs(pairs@) =~= str_pair_opt("roomId"@, self@.room_id));
        }
        push_str_entry(&mut pairs, "channel", &self.channel);
        push_str_entry(&mut pairs, "text", &self.text);
        push_str_entry(&mut pairs, "alias", &self.alias);
        push_str_entry(&mut pairs, "emoji", &self.emoji);
        push_str_entry(&mut pairs, "avatar", &self.avatar);
        let items = attachments_to_json(&self.attachments);
        push_entry(&mut pairs, "attachments", Json::Arr(items));
        let j = Json::Obj(pairs);
        proof {
            assert(j@ =~= message_jv(self@));
        }
        j
    }

    /// The JSON payload text for this message, exactly as posted to the
    /// webhook.
    pub fn encode(&self) -> (s: String)
        ensures
            s@ == render(message_jv(self@)),
    {
        let j = self.to_json();
        render_json(&j)
    }
}

proof fn lemma_str_pair_keys(key: Seq<char>, s: Seq<char>, other: Seq<char>)
    requires
        key != other,
    ensures
        forall|i: int|
            0 <= i < str_pair_opt(key, s).len() ==> str_pair_opt(key, s)[i].0 != other,
{
    let p = str_pair_opt(key, s);
    assert forall|i: int| 0 <= i < p.len() implies p[i].0 != other by {
        assert(p[i] == (key, JsonV::Str(s)));
    }
}

proof fn lemma_bool_pair_keys(key: Seq<char>, b: bool, other: Seq<char>)
    requires
        key != other,
    ensures
        forall|i: int|
            0 <= i < bool_pair_opt(key, b).len() ==> bool_pair_opt(key, b)[i].0 != other,
{
    let p = bool_pair_opt(key, b);
    assert forall|i: int| 0 <= i < p.len() implies p[i].0 != other by {
        assert(p[i] == (key, JsonV::Bool(true)));
    }
}

/// Setting the destinations in either order leaves only the one set last:
/// for non-empty `a` and `b`, a room id then a channel keeps the channel
/// and clears the room id, and the other way around.
pub proof fn law_destination_mutual_exclusion(m: MessageV, a: Seq<char>, b: Seq<char>)
    requires
        a.len() > 0,
        b.len() > 0,
    ensures
        with_channel(with_room_id(m, a), b).channel == b,
        with_channel(with_room_id(m, a), b).room_id.len() == 0,
        with_room_id(with_channel(m, b), a).room_id == a,
        with_room_id(with_channel(m, b), a).channel.len() == 0,
{
}

/// A freshly built attachment serializes to a document holding only its
/// timestamp; every other member is omitted at its default.
pub proof fn law_default_attachment_omission(a: AttachmentV)
    requires
        blank_attachment(a),
    ensures
        attachment_jv(a) == JsonV::Obj(seq![("ts"@, JsonV::Str(rfc3339_text(a.ts)))]),
{
    assert(fields_jv(a.fields).len() == 0);
    assert(attachment_jv(a)->Obj_0 =~= seq![("ts"@, JsonV::Str(rfc3339_text(a.ts)))]);
}

/// The serialized document of every message carries an `attachments`
/// entry, even when the sequence is empty.
pub proof fn law_attachments_always_present(m: MessageV)
    ensures
        jv_lookup(message_jv(m)->Obj_0, "attachments"@) == Some(
            JsonV::Arr(attachments_jv(m.attachments)),
        ),
{
    reveal_strlit("roomId");
    reveal_strlit("channel");
    reveal_strlit("text");
    reveal_strlit("alias");
    reveal_strlit("emoji");
    reveal_strlit("avatar");
    reveal_strlit("attachments");
    let pre = str_pair_opt("roomId"@, m.room_id) + str_pair_opt("channel"@, m.channel)
        + str_pair_opt("text"@, m.text) + str_pair_opt("alias"@, m.alias) + str_pair_opt(
        "emoji"@,
        m.emoji,
    ) + str_pair_opt("avatar"@, m.avatar);
    let tail = seq![("attachments"@, JsonV::Arr(attachments_jv(m.attachments)))];
    assert forall|i: int| 0 <= i < pre.len() implies pre[i].0 != "attachments"@ by {
        assert(pre[i].0.len() < 8);
    }
    lemma_jv_lookup_append(pre, tail, "attachments"@);
    assert(message_jv(m)->Obj_0 =~= pre + tail);
}

/// The serialized document of an attachment with at least one field
/// carries a `fields` entry holding the fields' documents in order.
pub proof fn lemma_attachment_fields_entry(a: AttachmentV)
    requires
        a.fields.len() > 0,
    ensures
        jv_lookup(attachment_jv(a)->Obj_0, "fields"@) == Some(JsonV::Arr(fields_jv(a.fields))),
{
    reveal_strlit("color");
    reveal_strlit("text");
    reveal_strlit("ts");
    reveal_strlit("thumb_url");
    reveal_strlit("message_link");
    reveal_strlit("collapsed");
    reveal_strlit("author_name");
    reveal_strlit("author_link");
    reveal_strlit("author_icon");
    reveal_strlit("title");
    reveal_strlit("title_link");
    reveal_strlit("title_link_download");
    reveal_strlit("image_url");
    reveal_strlit("audio_url");
    reveal_strlit("video_url");
    reveal_strlit("fields");
    let key = "fields"@;
    let p1 = str_pair_opt("color"@, a.color);
    let p2 = str_pair_opt("text"@, a.text);
    let p3 = seq![("ts"@, JsonV::Str(rfc3339_text(a.ts)))];
    let p4 = str_pair_opt("thumb_url"@, a.thumb_url);
    let p5 = str_pair_opt("message_link"@, a.message_link);
    let p6 = bool_pair_opt("collapsed"@, a.collapsed);
    let p7 = str_pair_opt("author_name"@, a.author_name);
    let p8 = str_pair_opt("author_link"@, a.author_link);
    let p9 = str_pair_opt("author_icon"@, a.author_icon);
    let p10 = str_pair_opt("title"@, a.title);
    let p11 = str_pair_opt("title_link"@, a.title_link);
    let p12 = bool_pair_opt("title_link_download"@, a.title_link_download);
    let p13 = str_pair_opt("image_url"@, a.image_url);
    let p14 = str_pair_opt("audio_url"@, a.audio_url);
    let p15 = str_pair_opt("video_url"@, a.video_url);
    assert(key.len() == 6);
    assert("color"@.len() == 5);
    assert("text"@.len() == 4);
    assert("ts"@.len() == 2);
    assert("thumb_url"@.len() == 9);
    assert("message_link"@.len() == 12);
    assert("collapsed"@.len() == 9);
    assert("author_name"@.len() == 11);
    assert("author_link"@.len() == 11);
    assert("author_icon"@.len() == 11);
    assert("title"@.len() == 5);
    assert("title_link"@.len() == 10);
    assert("title_link_download"@.len() == 19);
    assert("image_url"@.len() == 9);
    assert("audio_url"@.len() == 9);
    assert("video_url"@.len() == 9);
    lemma_str_pair_keys("color"@, a.color, key);
    lemma_str_pair_keys("text"@, a.text, key);
    assert forall|i: int| 0 <= i < p3.len() implies p3[i].0 != key by {
        assert(p3[i] == ("ts"@, JsonV::Str(rfc3339_text(a.ts))));
    }
    lemma_str_pair_keys("thumb_url"@, a.thumb_url, key);
    lemma_str_pair_keys("message_link"@, a.message_link, key);
    lemma_bool_pair_keys("collapsed"@, a.collapsed, key);
    lemma_str_pair_keys("author_name"@, a.author_name, key);
    lemma_str_pair_keys("author_link"@, a.author_link, key);
    lemma_str_pair_keys("author_icon"@, a.author_icon, key);
    lemma_str_pair_keys("title"@, a.title, key);
    lemma_str_pair_keys("title_link"@, a.title_link, key);
    lemma_bool_pair_keys("title_link_download"@, a.title_link_download, key);
    lemma_str_pair_keys("image_url"@, a.image_url, key);
    lemma_str_pair_keys("audio_url"@, a.audio_url, key);
    lemma_str_pair_keys("video_url"@, a.video_url, key);
    lemma_keys_ne_append(p1, p2, key);
    lemma_keys_ne_append(p1 + p2, p3, key);
    lemma_keys_ne_append(p1 + p2 + p3, p4, key);
    lemma_keys_ne_append(p1 + p2 + p3 + p4, p5, key);
    lemma_keys_ne_append(p1 + p2 + p3 + p4 + p5, p6, key);
    lemma_keys_ne_append(p1 + p2 + p3 + p4 + p5 + p6, p7, key);
    lemma_keys_ne_append(p1 + p2 + p3 + p4 + p5 + p6 + p7, p8, key);
    lemma_keys_ne_append(p1 + p2 + p3 + p4 + p5 + p6 + p7 + p8, p9, key);
    lemma_keys_ne_append(p1 + p2 + p3 + p4 + p5 + p6 + p7 + p8 + p9, p10, key);
    lemma_keys_ne_append(p1 + p2 + p3 + p4 + p5 + p6 + p7 + p8 + p9 + p10, p11, key);
    lemma_keys_ne_append(p1 + p2 + p3 + p4 + p5 + p6 + p7 + p8 + p9 + p10 + p11, p12, key);
    lemma_keys_ne_append(p1 + p2 + p3 + p4 + p5 + p6 + p7 + p8 + p9 + p10 + p11 + p12, p13, key);
    lemma_keys_ne_append(
        p1 + p2 + p3 + p4 + p5 + p6 + p7 + p8 + p9 + p10 + p11 + p12 + p13,
        p14,
        key,
    );
    lemma_keys_ne_append(
        p1 + p2 + p3 + p4 + p5 + p6 + p7 + p8 + p9 + p10 + p11 + p12 + p13 + p14,
        p15,
        key,
    );
    let pre = p1 + p2 + p3 + p4 + p5 + p6 + p7 + p8 + p9 + p10 + p11 + p12 + p13 + p14 + p15;
    let tail = arr_pair_opt(key, fields_jv(a.fields));
    lemma_jv_lookup_append(pre, tail, key);
    assert(fields_jv(a.fields).len() > 0);
    assert(jv_lookup(tail, key) == Some(JsonV::Arr(fields_jv(a.fields))));
    assert(attachment_jv(a)->Obj_0 == pre + tail);
}

/// Attaching fields in some order serializes them in that same order:
/// after appending `f1` then `f2`, the `fields` entry ends with their
/// documents, `f1` before `f2`, behind the fields already present.
pub proof fn law_field_order(a: AttachmentV, f1: AttachmentFieldV, f2: AttachmentFieldV)
    ensures
        ({
            let a2 = AttachmentV { fields: a.fields.push(f1).push(f2), ..a };
            &&& jv_lookup(attachment_jv(a2)->Obj_0, "fields"@) == Some(
                JsonV::Arr(fields_jv(a2.fields)),
            )
            &&& fields_jv(a2.fields) == fields_jv(a.fields) + seq![field_jv(f1), field_jv(f2)]
        }),
{
    let a2 = AttachmentV { fields: a.fields.push(f1).push(f2), ..a };
    lemma_attachment_fields_entry(a2);
    assert(fields_jv(a2.fields) =~= fields_jv(a.fields) + seq![field_jv(f1), field_jv(f2)]);
}

proof fn lemma_wf_pairs_of(ps: Seq<(Seq<char>, JsonV)>)
    requires
        forall|k: int| 0 <= k < ps.len() ==> sp_wf(#[trigger] ps[k].1),
    ensures
        sp_wf_pairs(ps),
    decreases ps,
{
    if ps.len() > 0 {
        assert(sp_wf(ps[0].1));
        assert forall|k: int|
            0 <= k < ps.drop_first().len() implies sp_wf(#[trigger] ps.drop_first()[k].1) by {
            assert(ps.drop_first()[k] == ps[k + 1]);
        }
        lemma_wf_pairs_of(ps.drop_first());
    }
}

proof fn lemma_wf_seq_of(s: Seq<JsonV>)
    requires
        forall|k: int| 0 <= k < s.len() ==> sp_wf(#[trigger] s[k]),
    ensures
        sp_wf_seq(s),
    decreases s,
{
    if s.len() > 0 {
        assert(sp_wf(s[0]));
        assert forall|k: int|
            0 <= k < s.drop_first().len() implies sp_wf(#[trigger] s.drop_first()[k]) by {
            assert(s.drop_first()[k] == s[k + 1]);
        }
        lemma_wf_seq_of(s.drop_first());
    }
}

proof fn lemma_wf_vals_append(a: Seq<(Seq<char>, JsonV)>, b: Seq<(Seq<char>, JsonV)>)
    requires
        forall|k: int| 0 <= k < a.len() ==> sp_wf(#[trigger] a[k].1),
        forall|k: int| 0 <= k < b.len() ==> sp_wf(#[trigger] b[k].1),
    ensures
        forall|k: int| 0 <= k < (a + b).len() ==> sp_wf(#[trigger] (a + b)[k].1),
{
    assert forall|k: int| 0 <= k < (a + b).len() implies sp_wf(#[trigger] (a + b)[k].1) by {
        if k < a.len() {
            assert((a + b)[k] == a[k]);
        } else {
            assert((a + b)[k] == b[k - a.len()]);
        }
    }
}

proof fn lemma_wf_str_piece(key: Seq<char>, s: Seq<char>)
    ensures
        forall|k: int|
            0 <= k < str_pair_opt(key, s).len() ==> sp_wf(#[trigger] str_pair_opt(key, s)[k].1),
{
    let p = str_pair_opt(key, s);
    assert forall|k: int| 0 <= k < p.len() implies sp_wf(#[trigger] p[k].1) by {
        assert(p[k] == (key, JsonV::Str(s)));
    }
}

proof fn lemma_wf_bool_piece(key: Seq<char>, b: bool)
    ensures
        forall|k: int|
            0 <= k < bool_pair_opt(key, b).len() ==> sp_wf(#[trigger] bool_pair_opt(key, b)[k].1),
{
    let p = bool_pair_opt(key, b);
    assert forall|k: int| 0 <= k < p.len() implies sp_wf(#[trigger] p[k].1) by {
        assert(p[k] == (key, JsonV::Bool(true)));
    }
}

proof fn lemma_wf_field_jv(f: AttachmentFieldV)
    ensures
        sp_wf(field_jv(f)),
{
    let p1 = bool_pair_opt("short"@, f.short);
    let p2 = str_pair_opt("title"@, f.title);
    let p3 = str_pair_opt("value"@, f.value);
    lemma_wf_bool_piece("short"@, f.short);
    lemma_wf_str_piece("title"@, f.title);
    lemma_wf_str_piece("value"@, f.value);
    lemma_wf_vals_append(p1, p2);
    lemma_wf_vals_append(p1 + p2, p3);
    lemma_wf_pairs_of(p1 + p2 + p3);
    assert(field_jv(f)->Obj_0 == p1 + p2 + p3);
}

proof fn lemma_wf_attachment_jv(a: AttachmentV)
    ensures
        sp_wf(attachment_jv(a)),
{
    let p1 = str_pair_opt("color"@, a.color);
    let p2 = str_pair_opt("text"@, a.text);
    let p3 = seq![("ts"@, JsonV::Str(rfc3339_text(a.ts)))];
    let p4 = str_pair_opt("thumb_url"@, a.thumb_url);
    let p5 = str_pair_opt("message_link"@, a.message_link);
    let p6 = bool_pair_opt("collapsed"@, a.collapsed);
    let p7 = str_pair_opt("author_name"@, a.author_name);
    let p8 = str_pair_opt("author_link"@, a.author_link);
    let p9 = str_pair_opt("author_icon"@, a.author_icon);
    let p10 = str_pair_opt("title"@, a.title);
    let p11 = str_pair_opt("title_link"@, a.title_link);
    let p12 = bool_pair_opt("title_link_download"@, a.title_link_download);
    let p13 = str_pair_opt("image_url"@, a.image_url);
    let p14 = str_pair_opt("audio_url"@, a.audio_url);
    let p15 = str_pair_opt("video_url"@, a.video_url);
    let p16 = arr_pair_opt("fields"@, fields_jv(a.fields));
    lemma_wf_str_piece("color"@, a.color);
    lemma_wf_str_piece("text"@, a.text);
    assert forall|k: int| 0 <= k < p3.len() implies sp_wf(#[trigger] p3[k].1) by {
        assert(p3[k] == ("ts"@, JsonV::Str(rfc3339_text(a.ts))));
    }
    lemma_wf_str_piece("thumb_url"@, a.thumb_url);
    lemma_wf_str_piece("message_link"@, a.message_link);
    lemma_wf_bool_piece("collapsed"@, a.collapsed);
    lemma_wf_str_piece("author_name"@, a.author_name);
    lemma_wf_str_piece("author_link"@, a.author_link);
    lemma_wf_str_piece("author_icon"@, a.author_icon);
    lemma_wf_str_piece("title"@, a.title);
    lemma_wf_str_piece("title_link"@, a.title_link);
    lemma_wf_bool_piece("title_link_download"@, a.title_link_download);
    lemma_wf_str_piece("image_url"@, a.image_url);
    lemma_wf_str_piece("audio_url"@, a.audio_url);
    lemma_wf_str_piece("video_url"@, a.video_url);
    assert forall|k: int| 0 <= k < fields_jv(a.fields).len() implies sp_wf(
        #[trigger] fields_jv(a.fields)[k],
    ) by {
        lemma_wf_field_jv(a.fields[k]);
    }
    lemma_wf_seq_of(fields_jv(a.fields));
    assert forall|k: int| 0 <= k < p16.len() implies sp_wf(#[trigger] p16[k].1) by {
        assert(p16[k] == ("fields"@, JsonV::Arr(fields_jv(a.fields))));
    }
    lemma_wf_vals_append(p1, p2);
    lemma_wf_vals_append(p1 + p2, p3);
    lemma_wf_vals_append(p1 + p2 + p3, p4);
    lemma_wf_vals_append(p1 + p2 + p3 + p4, p5);
    lemma_wf_vals_append(p1 + p2 + p3 + p4 + p5, p6);
    lemma_wf_vals_append(p1 + p2 + p3 + p4 + p5 + p6, p7);
    lemma_wf_vals_append(p1 + p2 + p3 + p4 + p5 + p6 + p7, p8);
    lemma_wf_vals_append(p1 + p2 + p3 + p4 + p5 + p6 + p7 + p8, p9);
    lemma_wf_vals_append(p1 + p2 + p3 + p4 + p5 + p6 + p7 + p8 + p9, p10);
    lemma_wf_vals_append(p1 + p2 + p3 + p4 + p5 + p6 + p7 + p8 + p9 + p10, p11);
    lemma_wf_vals_append(p1 + p2 + p3 + p4 + p5 + p6 + p7 + p8 + p9 + p10 + p11, p12);
    lemma_wf_vals_append(p1 + p2 + p3 + p4 + p5 + p6 + p7 + p8 + p9 + p10 + p11 + p12, p13);
    lemma_wf_vals_append(p1 + p2 + p3 + p4 + p5 + p6 + p7 + p8 + p9 + p10 + p11 + p12 + p13, p14);
    lemma_wf_vals_append(
        p1 + p2 + p3 + p4 + p5 + p6 + p7 + p8 + p9 + p10 + p11 + p12 + p13 + p14,
        p15,
    );
    lemma_wf_vals_append(
        p1 + p2 + p3 + p4 + p5 + p6 + p7 + p8 + p9 + p10 + p11 + p12 + p13 + p14 + p15,
        p16,
    );
    let full = p1 + p2 + p3 + p4 + p5 + p6 + p7 + p8 + p9 + p10 + p11 + p12 + p13 + p14 + p15
        + p16;
    lemma_wf_pairs_of(full);
    assert(attachment_jv(a)->Obj_0 == full);
}

proof fn lemma_wf_message_jv(m: MessageV)
    ensures
        sp_wf(message_jv(m)),
{
    let p1 = str_pair_opt("roomId"@, m.room_id);
    let p2 = str_pair_opt("channel"@, m.channel);
    let p3 = str_pair_opt("text"@, m.text);
    let p4 = str_pair_opt("alias"@, m.alias);
    let p5 = str_pair_opt("emoji"@, m.emoji);
    let p6 = str_pair_opt("avatar"@, m.avatar);
    let p7 = seq![("attachments"@, JsonV::Arr(attachments_jv(m.attachments)))];
    lemma_wf_str_piece("roomId"@, m.room_id);
    lemma_wf_str_piece("channel"@, m.channel);
    lemma_wf_str_piece("text"@, m.text);
    lemma_wf_str_piece("alias"@, m.alias);
    lemma_wf_str_piece("emoji"@, m.emoji);
    lemma_wf_str_piece("avatar"@, m.avatar);
    assert forall|k: int| 0 <= k < attachments_jv(m.attachments).len() implies sp_wf(
        #[trigger] attachments_jv(m.attachments)[k],
    ) by {
        lemma_wf_attachment_jv(m.attachments[k]);
    }
    lemma_wf_seq_of(attachments_jv(m.attachments));
    assert forall|k: int| 0 <= k < p7.len() implies sp_wf(#[trigger] p7[k].1) by {
        assert(p7[k] == ("attachments"@, JsonV::Arr(attachments_jv(m.attachments))));
    }
    lemma_wf_vals_append(p1, p2);
    lemma_wf_vals_append(p1 + p2, p3);
    lemma_wf_vals_append(p1 + p2 + p3, p4);
    lemma_wf_vals_append(p1 + p2 + p3 + p4, p5);
    lemma_wf_vals_append(p1 + p2 + p3 + p4 + p5, p6);
    lemma_wf_vals_append(p1 + p2 + p3 + p4 + p5 + p6, p7);
    let full = p1 + p2 + p3 + p4 + p5 + p6 + p7;
    lemma_wf_pairs_of(full);
    assert(message_jv(m)->Obj_0 == full);
}

/// Round trip: the payload text written for any message reads back as
/// exactly the document it was written from.
pub proof fn law_payload_round_trip(m: MessageV)
    ensures
        sp_parse_json(render(message_jv(m))) == Some(message_jv(m)),
{
    lemma_wf_message_jv(m);
    lemma_parse_render(message_jv(m));
}

/// How an attachment field is read back from an object's entries: every
/// member tolerates absence with its default.
pub open spec fn spec_decode_field(ps: Seq<(Seq<char>, JsonV)>) -> Option<AttachmentFieldV> {
    let short = d_bool(jv_lookup(ps, "short"@));
    let title = d_str(jv_lookup(ps, "title"@));
    let value = d_str(jv_lookup(ps, "value"@));
    if short is None || title is None || value is None {
        None
    } else {
        Some(AttachmentFieldV { short: short->Some_0, title: title->Some_0, value: value->Some_0 })
    }
}

/// One entry of a `fields` array: it must be an object.
pub open spec fn d_item_field(v: JsonV) -> Option<AttachmentFieldV> {
    match v {
        JsonV::Obj(ps) => spec_decode_field(ps),
        _ => None,
    }
}

/// A whole `fields` array, in order; one bad entry spoils the array.
pub open spec fn spec_decode_fields(items: Seq<JsonV>) -> Option<Seq<AttachmentFieldV>>
    decreases items,
{
    if items.len() == 0 {
        Some(Seq::<AttachmentFieldV>::empty())
    } else {
        match (spec_decode_fields(items.drop_last()), d_item_field(items.last())) {
            (Some(rest), Some(f)) => Some(rest.push(f)),
            _ => None,
        }
    }
}

/// The `ts` member of an attachment: required, an RFC 3339 string, and
/// within the range the library can write back.
pub open spec fn d_att_ts(o: Option<JsonV>) -> Option<i64> {
    match o {
        Some(JsonV::Str(s)) => match rfc3339_parse(s) {
            Some(ms) => if 0 <= ms <= TS_MAX_MILLIS {
                Some(ms)
            } else {
                None
            },
            None => None,
        },
        _ => None,
    }
}

/// How an attachment is read back from an object's entries: optional
/// members tolerate absence with their defaults, `ts` is required, and
/// an absent `fields` means none.
pub open spec fn spec_decode_attachment(ps: Seq<(Seq<char>, JsonV)>) -> Option<AttachmentV> {
    let color = d_str(jv_lookup(ps, "color"@));
    let text = d_str(jv_lookup(ps, "text"@));
    let ts = d_att_ts(jv_lookup(ps, "ts"@));
    let thumb_url = d_str(jv_lookup(ps, "thumb_url"@));
    let message_link = d_str(jv_lookup(ps, "message_link"@));
    let collapsed = d_bool(jv_lookup(ps, "collapsed"@));
    let author_name = d_str(jv_lookup(ps, "author_name"@));
    let author_link = d_str(jv_lookup(ps, "author_link"@));
    let author_icon = d_str(jv_lookup(ps, "author_icon"@));
    let title = d_str(jv_lookup(ps, "title"@));
    let title_link = d_str(jv_lookup(ps, "title_link"@));
    let title_link_download = d_bool(jv_lookup(ps, "title_link_download"@));
    let image_url = d_str(jv_lookup(ps, "image_url"@));
    let audio_url = d_str(jv_lookup(ps, "audio_url"@));
    let video_url = d_str(jv_lookup(ps, "video_url"@));
    let fields = match jv_lookup(ps, "fields"@) {
        None => Some(Seq::<AttachmentFieldV>::empty()),
        Some(JsonV::Arr(items)) => spec_decode_fields(items),
        Some(_) => None,
    };
    if color is None || text is None || ts is None || thumb_url is None || message_link is None
        || collapsed is None || author_name is None || author_link is None || author_icon is None
        || title is None || title_link is None || title_link_download is None || image_url is None
        || audio_url is None || video_url is None || fields is None {
        None
    } else {
        Some(AttachmentV {
            color: color->Some_0,
            text: text->Some_0,
            ts: ts->Some_0 as int,
            thumb_url: thumb_url->Some_0,
            message_link: message_link->Some_0,
            collapsed: collapsed->Some_0,
            author_name: author_name->Some_0,
            author_link: author_link->Some_0,
            author_icon: author_icon->Some_0,
            title: title->Some_0,
            title_link: title_link->Some_0,
            title_link_download: title_link_download->Some_0,
            image_url: image_url->Some_0,
            audio_url: audio_url->Some_0,
            video_url: video_url->Some_0,
            fields: fields->Some_0,
        })
    }
}

/// One entry of an `attachments` array: it must be an object.
pub open spec fn d_item_attachment(v: JsonV) -> Option<AttachmentV> {
    match v {
        JsonV::Obj(ps) => spec_decode_attachment(ps),
        _ => None,
    }
}

/// A whole `attachments` array, in order; one bad entry spoils the array.
pub open spec fn spec_decode_attachments(items: Seq<JsonV>) -> Option<Seq<AttachmentV>>
    decreases items,
{
    if items.len() == 0 {
        Some(Seq::<AttachmentV>::empty())
    } else {
        match (spec_decode_attachments(items.drop_last()), d_item_attachment(items.last())) {
            (Some(rest), Some(a)) => Some(rest.push(a)),
            _ => None,
        }
    }
}

/// How a message is read back from a JSON document: the document must be
/// an object; the destination is accepted as `roomId` or `room_id`, the
/// canonical spelling winning; `attachments` is required, as it is always
/// written; and a document naming both destinations is refused, since
/// they are mutually exclusive.
pub open spec fn spec_decode_message(j: JsonV) -> Option<MessageV> {
    match j {
        JsonV::Obj(ps) => {
            let room_id = d_str(get2(ps, "roomId"@, "room_id"@));
            let channel = d_str(jv_lookup(ps, "channel"@));
            let text = d_str(jv_lookup(ps, "text"@));
            let alias = d_str(jv_lookup(ps, "alias"@));
            let emoji = d_str(jv_lookup(ps, "emoji"@));
            let avatar = d_str(jv_lookup(ps, "avatar"@));
            let attachments = match jv_lookup(ps, "attachments"@) {
                Some(JsonV::Arr(items)) => spec_decode_attachments(items),
                _ => None,
            };
            if room_id is None || channel is None || text is None || alias is None
                || emoji is None || avatar is None || attachments is None {
                None
            } else if room_id->Some_0.len() > 0 && channel->Some_0.len() > 0 {
                None
            } else {
                Some(MessageV {
                    room_id: room_id->Some_0,
                    channel: channel->Some_0,
                    text: text->Some_0,
                    alias: alias->Some_0,
                    emoji: emoji->Some_0,
                    avatar: avatar->Some_0,
                    attachments: attachments->Some_0,
                })
            }
        },
        _ => None,
    }
}

proof fn lemma_decode_fields_none(items: Seq<JsonV>, i: int)
    requires
        0 <= i < items.len(),
        d_item_field(items[i]) is None,
    ensures
        spec_decode_fields(items) is None,
    decreases items,
{
    if i < items.len() - 1 {
        assert(items.drop_last()[i] == items[i]);
        lemma_decode_fields_none(items.drop_last(), i);
    }
}

proof fn lemma_decode_attachments_none(items: Seq<JsonV>, i: int)
    requires
        0 <= i < items.len(),
        d_item_attachment(items[i]) is None,
    ensures
        spec_decode_attachments(items) is None,
    decreases items,
{
    if i < items.len() - 1 {
        assert(items.drop_last()[i] == items[i]);
        lemma_decode_attachments_none(items.drop_last(), i);
    }
}

/// Read one attachment field back from its object's entries.
fn decode_field_obj(pairs: &Vec<(String, Json)>) -> (r: Result<AttachmentField, DecodeError>)
    ensures
        match r {
            Ok(f) => spec_decode_field(jv_pairs(pairs@)) == Some(f@),
            Err(e) => spec_decode_field(jv_pairs(pairs@)) is None && e == DecodeError::Shape,
        },
{
    let short = match crate::response::take_bool(pairs, &String::from_str("short")) {
        Ok(b) => b,
        Err(e) => {
            return Err(e);
        },
    };
    let title = match crate::response::take_str(pairs, &String::from_str("title")) {
        Ok(s) => s,
        Err(e) => {
            return Err(e);
        },
    };
    let value = match crate::response::take_str(pairs, &String::from_str("value")) {
        Ok(s) => s,
        Err(e) => {
            return Err(e);
        },
    };
    Ok(AttachmentField { short, title, value })
}

/// Read a whole `fields` array back, in order.
fn decode_fields_arr(items: &Vec<Json>) -> (r: Result<Vec<AttachmentField>, DecodeError>)
    ensures
        match r {
            Ok(fs) => spec_decode_fields(jv_seq(items@)) == Some(
                fs@.map_values(|f: AttachmentField| f@),
            ),
            Err(e) => spec_decode_fields(jv_seq(items@)) is None && e == DecodeError::Shape,
        },
{
    proof {
        lemma_jv_seq_index(items@);
    }
    let mut fs: Vec<AttachmentField> = Vec::new();
    let n = items.len();
    let mut i: usize = 0;
    while i < n
        invariant
            n == items@.len(),
            i <= n,
            jv_seq(items@).len() == n,
            forall|k: int| 0 <= k < n ==> jv_seq(items@)[k] == jv(items@[k]),
            spec_decode_fields(jv_seq(items@).take(i as int)) == Some(
                fs@.map_values(|f: AttachmentField| f@),
            ),
        decreases n - i,
    {
        let f = match &items[i] {
            Json::Obj(ps) => match decode_field_obj(ps) {
                Ok(f) => f,
                Err(e) => {
                    proof {
                        lemma_decode_fields_none(jv_seq(items@), i as int);
                    }
                    return Err(e);
                },
            },
            _ => {
                proof {
                    lemma_decode_fields_none(jv_seq(items@), i as int);
                }
                return Err(DecodeError::Shape);
            },
        };
        let ghost before = fs@;
        fs.push(f);
        proof {
            let s = jv_seq(items@);
            assert(s.take(i + 1).drop_last() =~= s.take(i as int));
            assert(s.take(i + 1).last() == s[i as int]);
            assert(fs@.map_values(|f: AttachmentField| f@) =~= before.map_values(
                |f: AttachmentField| f@,
            ).push(fs@.last()@));
        }
        i = i + 1;
    }
    proof {
        assert(jv_seq(items@).take(n as int) =~= jv_seq(items@));
    }
    Ok(fs)
}

/// Read one attachment back from its object's entries.
fn decode_attachment_obj(pairs: &Vec<(String, Json)>) -> (r: Result<Attachment, DecodeError>)
    ensures
        match r {
            Ok(a) => spec_decode_attachment(jv_pairs(pairs@)) == Some(a@),
            Err(e) => spec_decode_attachment(jv_pairs(pairs@)) is None && e == DecodeError::Shape,
        },
{
    let color = match crate::response::take_str(pairs, &String::from_str("color")) {
        Ok(s) => s,
        Err(e) => {
            return Err(e);
        },
    };
    let text = match crate::response::take_str(pairs, &String::from_str("text")) {
        Ok(s) => s,
        Err(e) => {
            return Err(e);
        },
    };
    let ts: i64 = match crate::response::obj_get(pairs, &String::from_str("ts")) {
        Some(j) => match j {
            Json::Str(s) => match rfc3339_to_millis(s.as_str()) {
                Some(ms) => if 0 <= ms && ms <= TS_MAX_MILLIS {
                    ms
                } else {
                    return Err(DecodeError::Shape);
                },
                None => {
                    return Err(DecodeError::Shape);
                },
            },
            _ => {
                return Err(DecodeError::Shape);
            },
        },
        None => {
            return Err(DecodeError::Shape);
        },
    };
    let thumb_url = match crate::response::take_str(pairs, &String::from_str("thumb_url")) {
        Ok(s) => s,
        Err(e) => {
            return Err(e);
        },
    };
    let message_link = match crate::response::take_str(pairs, &String::from_str("message_link")) {
        Ok(s) => s,
        Err(e) => {
            return Err(e);
        },
    };
    let collapsed = match crate::response::take_bool(pairs, &String::from_str("collapsed")) {
        Ok(b) => b,
        Err(e) => {
            return Err(e);
        },
    };
    let author_name = match crate::response::take_str(pairs, &String::from_str("author_name")) {
        Ok(s) => s,
        Err(e) => {
            return Err(e);
        },
    };
    let author_link = match crate::response::take_str(pairs, &String::from_str("author_link")) {
        Ok(s) => s,
        Err(e) => {
            return Err(e);
        },
    };
    let author_icon = match crate::response::take_str(pairs, &String::from_str("author_icon")) {
        Ok(s) => s,
        Err(e) => {
            return Err(e);
        },
    };
    let title = match crate::response::take_str(pairs, &String::from_str("title")) {
        Ok(s) => s,
        Err(e) => {
            return Err(e);
        },
    };
    let title_link = match crate::response::take_str(pairs, &String::from_str("title_link")) {
        Ok(s) => s,
        Err(e) => {
            return Err(e);
        },
    };
    let title_link_download = match crate::response::take_bool(
        pairs,
        &String::from_str("title_link_download"),
    ) {
        Ok(b) => b,
        Err(e) => {
            return Err(e);
        },
    };
    let image_url = match crate::response::take_str(pairs, &String::from_str("image_url")) {
        Ok(s) => s,
        Err(e) => {
            return Err(e);
        },
    };
    let audio_url = match crate::response::take_str(pairs, &String::from_str("audio_url")) {
        Ok(s) => s,
        Err(e) => {
            return Err(e);
        },
    };
    let video_url = match crate::response::take_str(pairs, &String::from_str("video_url")) {
        Ok(s) => s,
        Err(e) => {
            return Err(e);
        },
    };
    let fields: Vec<AttachmentField> = match crate::response::obj_get(
        pairs,
        &String::from_str("fields"),
    ) {
        None => Vec::new(),
        Some(j) => match j {
            Json::Arr(items) => match decode_fields_arr(items) {
                Ok(fs) => fs,
                Err(e) => {
                    return Err(e);
                },
            },
            _ => {
                return Err(DecodeError::Shape);
            },
        },
    };
    let a = Attachment {
        color,
        text,
        ts,
        thumb_url,
        message_link,
        collapsed,
        author_name,
        author_link,
        author_icon,
        title,
        title_link,
        title_link_download,
        image_url,
        audio_url,
        video_url,
        fields,
    };
    proof {
        assert(a@.fields =~= a.fields@.map_values(|f: AttachmentField| f@));
    }
    Ok(a)
}

/// Read a whole `attachments` array back, in order.
fn decode_attachments_arr(items: &Vec<Json>) -> (r: Result<Vec<Attachment>, DecodeError>)
    ensures
        match r {
            Ok(ats) => spec_decode_attachments(jv_seq(items@)) == Some(
                ats@.map_values(|a: Attachment| a@),
            ),
            Err(e) => spec_decode_attachments(jv_seq(items@)) is None && e == DecodeError::Shape,
        },
{
    proof {
        lemma_jv_seq_index(items@);
    }
    let mut ats: Vec<Attachment> = Vec::new();
    let n = items.len();
    let mut i: usize = 0;
    while i < n
        invariant
            n == items@.len(),
            i <= n,
            jv_seq(items@).len() == n,
            forall|k: int| 0 <= k < n ==> jv_seq(items@)[k] == jv(items@[k]),
            spec_decode_attachments(jv_seq(items@).take(i as int)) == Some(
                ats@.map_values(|a: Attachment| a@),
            ),
        decreases n - i,
    {
        let a = match &items[i] {
            Json::Obj(ps) => match decode_attachment_obj(ps) {
                Ok(a) => a,
                Err(e) => {
                    proof {
                        lemma_decode_attachments_none(jv_seq(items@), i as int);
                    }
                    return Err(e);
                },
            },
            _ => {
                proof {
                    lemma_decode_attachments_none(jv_seq(items@), i as int);
                }
                return Err(DecodeError::Shape);
            },
        };
        let ghost before = ats@;
        ats.push(a);
        proof {
            let s = jv_seq(items@);
            assert(s.take(i + 1).drop_last() =~= s.take(i as int));
            assert(s.take(i + 1).last() == s[i as int]);
            assert(ats@.map_values(|a: Attachment| a@) =~= before.map_values(
                |a: Attachment| a@,
            ).push(ats@.last()@));
        }
        i = i + 1;
    }
    proof {
        assert(jv_seq(items@).take(n as int) =~= jv_seq(items@));
    }
    Ok(ats)
}

impl Message {
    /// Read a message back from a JSON document, per
    /// [`spec_decode_message`]: the destination is accepted under either
    /// spelling, and a document naming both destinations is refused.
    pub fn from_json(j: &Json) -> (r: Result<Message, DecodeError>)
        ensures
            match r {
                Ok(m) => spec_decode_message(j@) == Some(m@),
                Err(e) => spec_decode_message(j@) is None && e == DecodeError::Shape,
            },
    {
        let pairs: &Vec<(String, Json)> = match j {
            Json::Obj(ps) => ps,
            _ => {
                return Err(DecodeError::Shape);
            },
        };
        let room_id: String = match crate::response::obj_get2(
            pairs,
            &String::from_str("roomId"),
            &String::from_str("room_id"),
        ) {
            None => String::new(),
            Some(v) => match v {
                Json::Str(s) => s.clone(),
                _ => {
                    return Err(DecodeError::Shape);
                },
            },
        };
        let channel = match crate::response::take_str(pairs, &String::from_str("channel")) {
            Ok(s) => s,
            Err(e) => {
                return Err(e);
            },
        };
        let text = match crate::response::take_str(pairs, &String::from_str("text")) {
            Ok(s) => s,
            Err(e) => {
                return Err(e);
            },
        };
        let alias = match crate::response::take_str(pairs, &String::from_str("alias")) {
            Ok(s) => s,
            Err(e) => {
                return Err(e);
            },
        };
        let emoji = match crate::response::take_str(pairs, &String::from_str("emoji")) {
            Ok(s) => s,
            Err(e) => {
                return Err(e);
            },
        };
        let avatar = match crate::response::take_str(pairs, &String::from_str("avatar")) {
            Ok(s) => s,
            Err(e) => {
                return Err(e);
            },
        };
        let attachments: Vec<Attachment> = match crate::response::obj_get(
            pairs,
            &String::from_str("attachments"),
        ) {
            Some(v) => match v {
                Json::Arr(items) => match decode_attachments_arr(items) {
                    Ok(ats) => ats,
                    Err(e) => {
                        return Err(e);
                    },
                },
                _ => {
                    return Err(DecodeError::Shape);
                },
            },
            None => {
                return Err(DecodeError::Shape);
            },
        };
        if !room_id.as_str().is_empty() && !channel.as_str().is_empty() {
            return Err(DecodeError::Shape);
        }
        let m = Message { room_id, channel, text, alias, emoji, avatar, attachments };
        proof {
            assert(m@.attachments =~= m.attachments@.map_values(|a: Attachment| a@));
        }
        Ok(m)
    }

    /// Read a message back from JSON text: ill-formed text gives
    /// [`DecodeError::Syntax`], a wrongly shaped document
    /// [`DecodeError::Shape`].
    pub fn decode(s: &str) -> (r: Result<Message, DecodeError>)
        ensures
            match r {
                Ok(m) => sp_parse_json(s@) is Some && spec_decode_message(sp_parse_json(s@)->Some_0)
                    == Some(m@),
                Err(DecodeError::Syntax) => sp_parse_json(s@) is None,
                Err(DecodeError::Shape) => sp_parse_json(s@) is Some && spec_decode_message(
                    sp_parse_json(s@)->Some_0,
                ) is None,
            },
    {
        match crate::parse::parse_json(s) {
            Ok(j) => Message::from_json(&j),
            Err(e) => Err(e),
        }
    }
}

} // verus!
