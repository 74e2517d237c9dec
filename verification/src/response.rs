//! The parsed reply: whether the send succeeded, the server's record of
//! the stored message, and a one-line human-readable summary. Replies are
//! decoded tolerantly: absent members take their defaults, unknown members
//! are ignored, and a few members are accepted under two spellings.

use vstd::prelude::*;
use vstd::string::StrSliceExecFns;
use vstd::string::StringExecFns;

use crate::json::{
    jv, jv_lookup, jv_pairs, lemma_jv_lookup_at, lemma_jv_lookup_none, lemma_jv_lookup_skip,
    lemma_jv_lookup_update_other, lemma_jv_pairs_index, Json, JsonV,
};
use crate::parse::{parse_json, sp_parse_json};
use crate::timefmt::{rfc3339_parse, rfc3339_to_millis};

verus! {

/// Why a reply could not be decoded into a [`Response`].
#[derive(Debug, PartialEq, Eq)]
pub enum DecodeError {
    /// The reply body is not well-formed JSON text.
    Syntax,
    /// The reply body is JSON, but a member has the wrong shape.
    Shape,
}

/// The stored message's identifier as the server spelled it: absent, a
/// string in one schema variant, or a boolean in another. The wire
/// contract is genuinely inconsistent here, so the model keeps all three
/// possibilities apart rather than coercing.
#[derive(Debug, PartialEq)]
pub enum MessageId {
    Absent,
    Text(String),
    Flag(bool),
}

/// The mathematical value of a [`MessageId`].
#[verifier::ext_equal]
pub ghost enum MessageIdV {
    Absent,
    Text(Seq<char>),
    Flag(bool),
}

impl View for MessageId {
    type V = MessageIdV;

    closed spec fn view(&self) -> MessageIdV {
        match self {
            MessageId::Absent => MessageIdV::Absent,
            MessageId::Text(s) => MessageIdV::Text(s@),
            MessageId::Flag(b) => MessageIdV::Flag(*b),
        }
    }
}

impl MessageId {
    /// Whether the server sent any identifier at all.
    pub fn is_present(&self) -> (r: bool)
        ensures
            r == !(self@ is Absent),
    {
        !matches!(self, MessageId::Absent)
    }

    /// The identifier as a string, where the server sent one.
    pub fn as_text(&self) -> (r: Option<&String>)
        ensures
            match r {
                Some(s) => self@ == MessageIdV::Text(s@),
                None => !(self@ is Text),
            },
    {
        match self {
            MessageId::Text(s) => Some(s),
            _ => None,
        }
    }

    /// The identifier as a flag, where the server sent one.
    pub fn as_flag(&self) -> (r: Option<bool>)
        ensures
            match r {
                Some(b) => self@ == MessageIdV::Flag(b),
                None => !(self@ is Flag),
            },
    {
        match self {
            MessageId::Flag(b) => Some(*b),
            _ => None,
        }
    }
}

/// The sender identity as the server recorded it.
#[derive(Debug, PartialEq)]
pub struct ResponseMessageU {
    id: String,
    username: String,
}

/// The mathematical value of a [`ResponseMessageU`].
#[verifier::ext_equal]
pub ghost struct ResponseMessageUV {
    pub id: Seq<char>,
    pub username: Seq<char>,
}

impl View for ResponseMessageU {
    type V = ResponseMessageUV;

    closed spec fn view(&self) -> ResponseMessageUV {
        ResponseMessageUV { id: self.id@, username: self.username@ }
    }
}

impl ResponseMessageU {
    pub fn id(&self) -> (r: &String)
        ensures
            r@ == self@.id,
    {
        &self.id
    }

    pub fn username(&self) -> (r: &String)
        ensures
            r@ == self@.username,
    {
        &self.username
    }
}

/// The server's canonical record of the stored message.
#[derive(Debug, PartialEq)]
pub struct ResponseMessage {
    alias: String,
    msg: String,
    parse_urls: bool,
    groupable: bool,
    u: ResponseMessageU,
    ts: i64,
    rid: String,
    updated_at: i64,
    id: MessageId,
}

/// The mathematical value of a [`ResponseMessage`].
#[verifier::ext_equal]
pub ghost struct ResponseMessageV {
    pub alias: Seq<char>,
    pub msg: Seq<char>,
    pub parse_urls: bool,
    pub groupable: bool,
    pub u: ResponseMessageUV,
    pub ts: int,
    pub rid: Seq<char>,
    pub updated_at: int,
    pub id: MessageIdV,
}

impl View for ResponseMessage {
    type V = ResponseMessageV;

    closed spec fn view(&self) -> ResponseMessageV {
        ResponseMessageV {
            alias: self.alias@,
            msg: self.msg@,
            parse_urls: self.parse_urls,
            groupable: self.groupable,
            u: self.u@,
            ts: self.ts as int,
            rid: self.rid@,
            updated_at: self.updated_at as int,
            id: self.id@,
        }
    }
}

impl ResponseMessage {
    pub fn alias(&self) -> (r: &str)
        ensures
            r@ == self@.alias,
    {
        self.alias.as_str()
    }

    pub fn msg(&self) -> (r: &str)
        ensures
            r@ == self@.msg,
    {
        self.msg.as_str()
    }

    pub fn parse_urls(&self) -> (r: bool)
        ensures
            r == self@.parse_urls,
    {
        self.parse_urls
    }

    pub fn groupable(&self) -> (r: bool)
        ensures
            r == self@.groupable,
    {
        self.groupable
    }

    pub fn u(&self) -> (r: &ResponseMessageU)
        ensures
            r@ == self@.u,
    {
        &self.u
    }

    /// The stored message's timestamp, in milliseconds since the epoch.
    pub fn ts(&self) -> (r: i64)
        ensures
            r as int == self@.ts,
    {
        self.ts
    }

    pub fn rid(&self) -> (r: &str)
        ensures
            r@ == self@.rid,
    {
        self.rid.as_str()
    }

    /// When the stored message was last updated, in milliseconds since
    /// the epoch.
    pub fn updated_at(&self) -> (r: i64)
        ensures
            r as int == self@.updated_at,
    {
        self.updated_at
    }

    /// The stored message's identifier, in whichever shape the server
    /// sent it.
    pub fn id(&self) -> (r: &MessageId)
        ensures
            r@ == self@.id,
    {
        &self.id
    }
}

/// The parsed reply. Error replies omit most members, so every member
/// tolerates absence with a default.
#[derive(Debug, PartialEq)]
pub struct Response {
    ts: i64,
    channel: String,
    message: ResponseMessage,
    success: bool,
    error: String,
    error_type: String,
}

/// The mathematical value of a [`Response`].
#[verifier::ext_equal]
pub ghost struct ResponseV {
    pub ts: int,
    pub channel: Seq<char>,
    pub message: ResponseMessageV,
    pub success: bool,
    pub error: Seq<char>,
    pub error_type: Seq<char>,
}

impl View for Response {
    type V = ResponseV;

    closed spec fn view(&self) -> ResponseV {
        ResponseV {
            ts: self.ts as int,
            channel: self.channel@,
            message: self.message@,
            success: self.success,
            error: self.error@,
            error_type: self.error_type@,
        }
    }
}

impl Response {
    /// When the reply was issued, in milliseconds since the epoch.
    pub fn ts(&self) -> (r: i64)
        ensures
            r as int == self@.ts,
    {
        self.ts
    }

    /// The destination the server confirmed.
    pub fn channel(&self) -> (r: &String)
        ensures
            r@ == self@.channel,
    {
        &self.channel
    }

    /// The server's record of the stored message.
    pub fn message(&self) -> (r: &ResponseMessage)
        ensures
            r@ == self@.message,
    {
        &self.message
    }

    /// Whether the send succeeded.
    pub fn success(&self) -> (r: bool)
        ensures
            r == self@.success,
    {
        self.success
    }

    /// The human-readable failure reason, empty on success.
    pub fn error_message(&self) -> (r: &String)
        ensures
            r@ == self@.error,
    {
        &self.error
    }

    /// The machine-readable failure category, empty on success.
    pub fn error_type(&self) -> (r: &String)
        ensures
            r@ == self@.error_type,
    {
        &self.error_type
    }
}

/// The first value under `k1`, else the first under `k2`: the canonical
/// spelling of a member wins over its alternate spelling.
pub open spec fn get2(ps: Seq<(Seq<char>, JsonV)>, k1: Seq<char>, k2: Seq<char>) -> Option<JsonV> {
    if jv_lookup(ps, k1) is Some {
        jv_lookup(ps, k1)
    } else {
        jv_lookup(ps, k2)
    }
}

/// A string member: absent means empty, any non-string shape is an error.
pub open spec fn d_str(o: Option<JsonV>) -> Option<Seq<char>> {
    match o {
        None => Some(Seq::<char>::empty()),
        Some(JsonV::Str(s)) => Some(s),
        Some(_) => None,
    }
}

/// A boolean member: absent means false, any non-boolean shape is an
/// error.
pub open spec fn d_bool(o: Option<JsonV>) -> Option<bool> {
    match o {
        None => Some(false),
        Some(JsonV::Bool(b)) => Some(b),
        Some(_) => None,
    }
}

/// A point-in-time member: absent means the epoch, a string is read as
/// RFC 3339, anything else is an error.
pub open spec fn d_time(o: Option<JsonV>) -> Option<i64> {
    match o {
        None => Some(0),
        Some(JsonV::Str(s)) => rfc3339_parse(s),
        Some(_) => None,
    }
}

/// The identifier member: absent, a string, or a boolean; anything else
/// is an error.
pub open spec fn d_id(o: Option<JsonV>) -> Option<MessageIdV> {
    match o {
        None => Some(MessageIdV::Absent),
        Some(JsonV::Str(s)) => Some(MessageIdV::Text(s)),
        Some(JsonV::Bool(b)) => Some(MessageIdV::Flag(b)),
        Some(_) => None,
    }
}

/// The sender identity with every member at its default.
pub open spec fn u_default() -> ResponseMessageUV {
    ResponseMessageUV { id: Seq::<char>::empty(), username: Seq::<char>::empty() }
}

/// The stored-message record with every member at its default.
pub open spec fn rm_default() -> ResponseMessageV {
    ResponseMessageV {
        alias: Seq::<char>::empty(),
        msg: Seq::<char>::empty(),
        parse_urls: false,
        groupable: false,
        u: u_default(),
        ts: 0,
        rid: Seq::<char>::empty(),
        updated_at: 0,
        id: MessageIdV::Absent,
    }
}

/// How a sender identity is decoded from an object's entries: `id` is
/// also accepted as `_id`.
pub open spec fn spec_decode_u(ps: Seq<(Seq<char>, JsonV)>) -> Option<ResponseMessageUV> {
    let id = d_str(get2(ps, "id"@, "_id"@));
    let username = d_str(jv_lookup(ps, "username"@));
    if id is None || username is None {
        None
    } else {
        Some(ResponseMessageUV { id: id->Some_0, username: username->Some_0 })
    }
}

/// How a stored-message record is decoded from an object's entries:
/// `parse_urls`, `updated_at` and `id` are also accepted as `parseUrls`,
/// `updatedAt` and `_id`; an absent `u` means the default identity.
pub open spec fn spec_decode_rm(ps: Seq<(Seq<char>, JsonV)>) -> Option<ResponseMessageV> {
    let alias = d_str(jv_lookup(ps, "alias"@));
    let msg = d_str(jv_lookup(ps, "msg"@));
    let parse_urls = d_bool(get2(ps, "parse_urls"@, "parseUrls"@));
    let groupable = d_bool(jv_lookup(ps, "groupable"@));
    let u = match jv_lookup(ps, "u"@) {
        None => Some(u_default()),
        Some(JsonV::Obj(ups)) => spec_decode_u(ups),
        Some(_) => None,
    };
    let ts = d_time(jv_lookup(ps, "ts"@));
    let rid = d_str(jv_lookup(ps, "rid"@));
    let updated_at = d_time(get2(ps, "updated_at"@, "updatedAt"@));
    let id = d_id(get2(ps, "id"@, "_id"@));
    if alias is None || msg is None || parse_urls is None || groupable is None || u is None
        || ts is None || rid is None || updated_at is None || id is None {
        None
    } else {
        Some(ResponseMessageV {
            alias: alias->Some_0,
            msg: msg->Some_0,
            parse_urls: parse_urls->Some_0,
            groupable: groupable->Some_0,
            u: u->Some_0,
            ts: ts->Some_0 as int,
            rid: rid->Some_0,
            updated_at: updated_at->Some_0 as int,
            id: id->Some_0,
        })
    }
}

/// How a reply is decoded from a JSON document: the document must be an
/// object; `error_type` is also accepted as `errorType`; an absent
/// `message` means the default record; unknown members are ignored.
pub open spec fn spec_decode_response(j: JsonV) -> Option<ResponseV> {
    match j {
        JsonV::Obj(ps) => {
            let ts = d_time(jv_lookup(ps, "ts"@));
            let channel = d_str(jv_lookup(ps, "channel"@));
            let message = match jv_lookup(ps, "message"@) {
                None => Some(rm_default()),
                Some(JsonV::Obj(mps)) => spec_decode_rm(mps),
                Some(_) => None,
            };
            let success = d_bool(jv_lookup(ps, "success"@));
            let error = d_str(jv_lookup(ps, "error"@));
            let error_type = d_str(get2(ps, "error_type"@, "errorType"@));
            if ts is None || channel is None || message is None || success is None
                || error is None || error_type is None {
                None
            } else {
                Some(ResponseV {
                    ts: ts->Some_0 as int,
                    channel: channel->Some_0,
                    message: message->Some_0,
                    success: success->Some_0,
                    error: error->Some_0,
                    error_type: error_type->Some_0,
                })
            }
        },
        _ => None,
    }
}

/// The first value under `key` among an object's entries, if any.
pub(crate) fn obj_get<'a>(pairs: &'a Vec<(String, Json)>, key: &String) -> (r: Option<&'a Json>)
    ensures
        match r {
            Some(v) => jv_lookup(jv_pairs(pairs@), key@) == Some(jv(*v)),
            None => jv_lookup(jv_pairs(pairs@), key@) is None,
        },
{
    proof {
        lemma_jv_pairs_index(pairs@);
    }
    let n = pairs.len();
    let mut i: usize = 0;
    while i < n
        invariant
            n == pairs@.len(),
            i <= n,
            jv_pairs(pairs@).len() == n,
            forall|k: int| 0 <= k < pairs@.len() ==> jv_pairs(pairs@)[k] == (
                pairs@[k].0@,
                jv(pairs@[k].1),
            ),
            forall|k: int| 0 <= k < i ==> jv_pairs(pairs@)[k].0 != key@,
        decreases n - i,
    {
        if pairs[i].0 == *key {
            proof {
                lemma_jv_lookup_skip(jv_pairs(pairs@), key@, i as int);
                assert(jv_pairs(pairs@).skip(i as int)[0] == jv_pairs(pairs@)[i as int]);
            }
            return Some(&pairs[i].1);
        }
        i = i + 1;
    }
    proof {
        lemma_jv_lookup_skip(jv_pairs(pairs@), key@, n as int);
        assert(jv_pairs(pairs@).skip(n as int) =~= Seq::<(Seq<char>, JsonV)>::empty());
    }
    None
}

/// The first value under `k1`, else under `k2`.
pub(crate) fn obj_get2<'a>(pairs: &'a Vec<(String, Json)>, k1: &String, k2: &String) -> (r: Option<&'a Json>)
    ensures
        match r {
            Some(v) => get2(jv_pairs(pairs@), k1@, k2@) == Some(jv(*v)),
            None => get2(jv_pairs(pairs@), k1@, k2@) is None,
        },
{
    match obj_get(pairs, k1) {
        Some(v) => Some(v),
        None => obj_get(pairs, k2),
    }
}

/// Decode a string member per [`d_str`].
pub(crate) fn take_str(pairs: &Vec<(String, Json)>, key: &String) -> (r: Result<String, DecodeError>)
    ensures
        match r {
            Ok(s) => d_str(jv_lookup(jv_pairs(pairs@), key@)) == Some(s@),
            Err(e) => d_str(jv_lookup(jv_pairs(pairs@), key@)) is None && e == DecodeError::Shape,
        },
{
    match obj_get(pairs, key) {
        None => Ok(String::new()),
        Some(j) => match j {
            Json::Str(s) => Ok(s.clone()),
            _ => Err(DecodeError::Shape),
        },
    }
}

/// Decode a boolean member per [`d_bool`].
pub(crate) fn take_bool(pairs: &Vec<(String, Json)>, key: &String) -> (r: Result<bool, DecodeError>)
    ensures
        match r {
            Ok(b) => d_bool(jv_lookup(jv_pairs(pairs@), key@)) == Some(b),
            Err(e) => d_bool(jv_lookup(jv_pairs(pairs@), key@)) is None && e == DecodeError::Shape,
        },
{
    match obj_get(pairs, key) {
        None => Ok(false),
        Some(j) => match j {
            Json::Bool(b) => Ok(*b),
            _ => Err(DecodeError::Shape),
        },
    }
}

/// Decode a point-in-time member per [`d_time`].
pub(crate) fn take_time(pairs: &Vec<(String, Json)>, key: &String) -> (r: Result<i64, DecodeError>)
    ensures
        match r {
            Ok(ms) => d_time(jv_lookup(jv_pairs(pairs@), key@)) == Some(ms),
            Err(e) => d_time(jv_lookup(jv_pairs(pairs@), key@)) is None && e == DecodeError::Shape,
        },
{
    match obj_get(pairs, key) {
        None => Ok(0),
        Some(j) => match j {
            Json::Str(s) => match rfc3339_to_millis(s.as_str()) {
                Some(ms) => Ok(ms),
                None => Err(DecodeError::Shape),
            },
            _ => Err(DecodeError::Shape),
        },
    }
}

/// Decode the sender identity from an object's entries.
fn decode_u(pairs: &Vec<(String, Json)>) -> (r: Result<ResponseMessageU, DecodeError>)
    ensures
        match r {
            Ok(u) => spec_decode_u(jv_pairs(pairs@)) == Some(u@),
            Err(e) => spec_decode_u(jv_pairs(pairs@)) is None && e == DecodeError::Shape,
        },
{
    let id: String = match obj_get2(pairs, &String::from_str("id"), &String::from_str("_id")) {
        None => String::new(),
        Some(j) => match j {
            Json::Str(s) => s.clone(),
            _ => {
                return Err(DecodeError::Shape);
            },
        },
    };
    let username = match take_str(pairs, &String::from_str("username")) {
        Ok(s) => s,
        Err(e) => {
            return Err(e);
        },
    };
    Ok(ResponseMessageU { id, username })
}

/// Decode the stored-message record from an object's entries.
fn decode_rm(pairs: &Vec<(String, Json)>) -> (r: Result<ResponseMessage, DecodeError>)
    ensures
        match r {
            Ok(m) => spec_decode_rm(jv_pairs(pairs@)) == Some(m@),
            Err(e) => spec_decode_rm(jv_pairs(pairs@)) is None && e == DecodeError::Shape,
        },
{
    let alias = match take_str(pairs, &String::from_str("alias")) {
        Ok(s) => s,
        Err(e) => {
            return Err(e);
        },
    };
    let msg = match take_str(pairs, &String::from_str("msg")) {
        Ok(s) => s,
        Err(e) => {
            return Err(e);
        },
    };
    let parse_urls: bool = match obj_get2(
        pairs,
        &String::from_str("parse_urls"),
        &String::from_str("parseUrls"),
    ) {
        None => false,
        Some(j) => match j {
            Json::Bool(b) => *b,
            _ => {
                return Err(DecodeError::Shape);
            },
        },
    };
    let groupable = match take_bool(pairs, &String::from_str("groupable")) {
        Ok(b) => b,
        Err(e) => {
            return Err(e);
        },
    };
    let u: ResponseMessageU = match obj_get(pairs, &String::from_str("u")) {
        None => ResponseMessageU { id: String::new(), username: String::new() },
        Some(j) => match j {
            Json::Obj(ups) => match decode_u(ups) {
                Ok(u) => u,
                Err(e) => {
                    return Err(e);
                },
            },
            _ => {
                return Err(DecodeError::Shape);
            },
        },
    };
    let ts = match take_time(pairs, &String::from_str("ts")) {
        Ok(ms) => ms,
        Err(e) => {
            return Err(e);
        },
    };
    let rid = match take_str(pairs, &String::from_str("rid")) {
        Ok(s) => s,
        Err(e) => {
            return Err(e);
        },
    };
    let updated_at: i64 = match obj_get2(
        pairs,
        &String::from_str("updated_at"),
        &String::from_str("updatedAt"),
    ) {
        None => 0,
        Some(j) => match j {
            Json::Str(s) => match rfc3339_to_millis(s.as_str()) {
                Some(ms) => ms,
                None => {
                    return Err(DecodeError::Shape);
                },
            },
            _ => {
                return Err(DecodeError::Shape);
            },
        },
    };
    let id: MessageId = match obj_get2(pairs, &String::from_str("id"), &String::from_str("_id")) {
        None => MessageId::Absent,
        Some(j) => match j {
            Json::Str(s) => MessageId::Text(s.clone()),
            Json::Bool(b) => MessageId::Flag(*b),
            _ => {
                return Err(DecodeError::Shape);
            },
        },
    };
    Ok(ResponseMessage { alias, msg, parse_urls, groupable, u, ts, rid, updated_at, id })
}

/// Decode a reply from its JSON document. Every clause of the tolerant
/// decoding — defaults for absent members, alternate spellings, errors on
/// wrongly shaped members — is fixed by [`spec_decode_response`].
pub fn decode_response(j: &Json) -> (r: Result<Response, DecodeError>)
    ensures
        match r {
            Ok(resp) => spec_decode_response(j@) == Some(resp@),
            Err(e) => spec_decode_response(j@) is None && e == DecodeError::Shape,
        },
{
    let pairs: &Vec<(String, Json)> = match j {
        Json::Obj(ps) => ps,
        _ => {
            return Err(DecodeError::Shape);
        },
    };
    let ts = match take_time(pairs, &String::from_str("ts")) {
        Ok(ms) => ms,
        Err(e) => {
            return Err(e);
        },
    };
    let channel = match take_str(pairs, &String::from_str("channel")) {
        Ok(s) => s,
        Err(e) => {
            return Err(e);
        },
    };
    let message: ResponseMessage = match obj_get(pairs, &String::from_str("message")) {
        None => ResponseMessage {
            alias: String::new(),
            msg: String::new(),
            parse_urls: false,
            groupable: false,
            u: ResponseMessageU { id: String::new(), username: String::new() },
            ts: 0,
            rid: String::new(),
            updated_at: 0,
            id: MessageId::Absent,
        },
        Some(mj) => match mj {
            Json::Obj(mps) => match decode_rm(mps) {
                Ok(m) => m,
                Err(e) => {
                    return Err(e);
                },
            },
            _ => {
                return Err(DecodeError::Shape);
            },
        },
    };
    let success = match take_bool(pairs, &String::from_str("success")) {
        Ok(b) => b,
        Err(e) => {
            return Err(e);
        },
    };
    let error = match take_str(pairs, &String::from_str("error")) {
        Ok(s) => s,
        Err(e) => {
            return Err(e);
        },
    };
    let error_type: String = match obj_get2(
        pairs,
        &String::from_str("error_type"),
        &String::from_str("errorType"),
    ) {
        None => String::new(),
        Some(j) => match j {
            Json::Str(s) => s.clone(),
            _ => {
                return Err(DecodeError::Shape);
            },
        },
    };
    Ok(Response { ts, channel, message, success, error, error_type })
}

/// Decode a reply from its JSON text: read the text as a JSON document,
/// then decode that document per [`spec_decode_response`]. Ill-formed
/// text gives [`DecodeError::Syntax`], a wrongly shaped document
/// [`DecodeError::Shape`].
pub fn decode_reply(s: &str) -> (r: Result<Response, DecodeError>)
    ensures
        match r {
            Ok(resp) => sp_parse_json(s@) is Some && spec_decode_response(
                sp_parse_json(s@)->Some_0,
            ) == Some(resp@),
            Err(DecodeError::Syntax) => sp_parse_json(s@) is None,
            Err(DecodeError::Shape) => sp_parse_json(s@) is Some && spec_decode_response(
                sp_parse_json(s@)->Some_0,
            ) is None,
        },
{
    match parse_json(s) {
        Ok(j) => decode_response(&j),
        Err(e) => Err(e),
    }
}

/// The one-line summary of a reply: `ok` on success; otherwise the error
/// text, or the error type when the text is empty, or `unknown error`
/// when both are empty. The order is a strict priority list.
pub open spec fn spec_status_line(r: ResponseV) -> Seq<char> {
    if r.success {
        "ok"@
    } else if r.error.len() == 0 && r.error_type.len() > 0 {
        r.error_type
    } else if r.error.len() == 0 && r.error_type.len() == 0 {
        "unknown error"@
    } else {
        r.error
    }
}

/// A reply that spells the failure category `errorType` decodes exactly
/// as the same reply spelling it `error_type`.
pub proof fn law_error_type_alias(ps: Seq<(Seq<char>, JsonV)>, i: int)
    requires
        0 <= i < ps.len(),
        ps[i].0 == "errorType"@,
        forall|k: int|
            0 <= k < ps.len() && k != i ==> ps[k].0 != "errorType"@ && ps[k].0 != "error_type"@,
    ensures
        spec_decode_response(JsonV::Obj(ps.update(i, ("error_type"@, ps[i].1))))
            == spec_decode_response(JsonV::Obj(ps)),
{
    reveal_strlit("errorType");
    reveal_strlit("error_type");
    reveal_strlit("ts");
    reveal_strlit("channel");
    reveal_strlit("message");
    reveal_strlit("success");
    reveal_strlit("error");
    assert("errorType"@.len() == 9);
    assert("error_type"@.len() == 10);
    assert("ts"@.len() == 2);
    assert("channel"@.len() == 7);
    assert("message"@.len() == 7);
    assert("success"@.len() == 7);
    assert("error"@.len() == 5);
    assert("channel"@[0] == 'c');
    assert("message"@[0] == 'm');
    assert("success"@[0] == 's');
    let p = ("error_type"@, ps[i].1);
    let qs = ps.update(i, p);
    lemma_jv_lookup_update_other(ps, i, p, "ts"@);
    lemma_jv_lookup_update_other(ps, i, p, "channel"@);
    lemma_jv_lookup_update_other(ps, i, p, "message"@);
    lemma_jv_lookup_update_other(ps, i, p, "success"@);
    lemma_jv_lookup_update_other(ps, i, p, "error"@);
    assert forall|k: int| 0 <= k < ps.len() implies ps[k].0 != "error_type"@ by {
        if k == i {
            assert(ps[k].0.len() == 9);
        }
    }
    lemma_jv_lookup_none(ps, "error_type"@);
    lemma_jv_lookup_at(ps, i, "errorType"@);
    assert forall|k: int| 0 <= k < i implies qs[k].0 != "error_type"@ by {
        assert(qs[k] == ps[k]);
    }
    lemma_jv_lookup_at(qs, i, "error_type"@);
    assert(get2(qs, "error_type"@, "errorType"@) == Some(ps[i].1));
    assert(get2(ps, "error_type"@, "errorType"@) == Some(ps[i].1));
}

/// A stored-message record that spells its identifier `_id` decodes
/// exactly as the same record spelling it `id`.
pub proof fn law_id_alias(ps: Seq<(Seq<char>, JsonV)>, i: int)
    requires
        0 <= i < ps.len(),
        ps[i].0 == "_id"@,
        forall|k: int| 0 <= k < ps.len() && k != i ==> ps[k].0 != "_id"@ && ps[k].0 != "id"@,
    ensures
        spec_decode_rm(ps.update(i, ("id"@, ps[i].1))) == spec_decode_rm(ps),
{
    reveal_strlit("_id");
    reveal_strlit("id");
    reveal_strlit("alias");
    reveal_strlit("msg");
    reveal_strlit("parse_urls");
    reveal_strlit("parseUrls");
    reveal_strlit("groupable");
    reveal_strlit("u");
    reveal_strlit("ts");
    reveal_strlit("rid");
    reveal_strlit("updated_at");
    reveal_strlit("updatedAt");
    assert("_id"@.len() == 3);
    assert("id"@.len() == 2);
    assert("alias"@.len() == 5);
    assert("msg"@.len() == 3);
    assert("parse_urls"@.len() == 10);
    assert("parseUrls"@.len() == 9);
    assert("groupable"@.len() == 9);
    assert("u"@.len() == 1);
    assert("ts"@.len() == 2);
    assert("rid"@.len() == 3);
    assert("updated_at"@.len() == 10);
    assert("updatedAt"@.len() == 9);
    assert("_id"@[0] == '_');
    assert("id"@[0] == 'i');
    assert("msg"@[0] == 'm');
    assert("rid"@[0] == 'r');
    assert("ts"@[0] == 't');
    let p = ("id"@, ps[i].1);
    let qs = ps.update(i, p);
    lemma_jv_lookup_update_other(ps, i, p, "alias"@);
    lemma_jv_lookup_update_other(ps, i, p, "msg"@);
    lemma_jv_lookup_update_other(ps, i, p, "parse_urls"@);
    lemma_jv_lookup_update_other(ps, i, p, "parseUrls"@);
    lemma_jv_lookup_update_other(ps, i, p, "groupable"@);
    lemma_jv_lookup_update_other(ps, i, p, "u"@);
    lemma_jv_lookup_update_other(ps, i, p, "ts"@);
    lemma_jv_lookup_update_other(ps, i, p, "rid"@);
    lemma_jv_lookup_update_other(ps, i, p, "updated_at"@);
    lemma_jv_lookup_update_other(ps, i, p, "updatedAt"@);
    assert forall|k: int| 0 <= k < ps.len() implies ps[k].0 != "id"@ by {
        if k == i {
            assert(ps[k].0.len() == 3);
        }
    }
    lemma_jv_lookup_none(ps, "id"@);
    lemma_jv_lookup_at(ps, i, "_id"@);
    assert forall|k: int| 0 <= k < i implies qs[k].0 != "id"@ by {
        assert(qs[k] == ps[k]);
    }
    lemma_jv_lookup_at(qs, i, "id"@);
    assert(get2(qs, "id"@, "_id"@) == Some(ps[i].1));
    assert(get2(ps, "id"@, "_id"@) == Some(ps[i].1));
}

/// The canonical spelling of a sender-identity member: `_id` is the
/// alternate spelling of `id`.
pub open spec fn canon_u_key(k: Seq<char>) -> Seq<char> {
    if k == "_id"@ {
        "id"@
    } else {
        k
    }
}

/// The canonical spelling of a stored-message member: `parseUrls`,
/// `updatedAt` and `_id` are the alternate spellings.
pub open spec fn canon_rm_key(k: Seq<char>) -> Seq<char> {
    if k == "parseUrls"@ {
        "parse_urls"@
    } else if k == "updatedAt"@ {
        "updated_at"@
    } else if k == "_id"@ {
        "id"@
    } else {
        k
    }
}

/// The canonical spelling of a top-level reply member: `errorType` is the
/// alternate spelling of `error_type`.
pub open spec fn canon_resp_key(k: Seq<char>) -> Seq<char> {
    if k == "errorType"@ {
        "error_type"@
    } else {
        k
    }
}

/// An object's entries with every key respelled by `f` and every value
/// rewritten by `g`, which sees the original key.
pub open spec fn map_pairs(
    ps: Seq<(Seq<char>, JsonV)>,
    f: spec_fn(Seq<char>) -> Seq<char>,
    g: spec_fn(Seq<char>, JsonV) -> JsonV,
) -> Seq<(Seq<char>, JsonV)> {
    ps.map_values(|p: (Seq<char>, JsonV)| (f(p.0), g(p.0, p.1)))
}

/// A sender identity with its spellings made canonical.
pub open spec fn canon_u_pairs(ps: Seq<(Seq<char>, JsonV)>) -> Seq<(Seq<char>, JsonV)> {
    map_pairs(ps, |k: Seq<char>| canon_u_key(k), |k: Seq<char>, v: JsonV| v)
}

/// The `u` member with its spellings made canonical, untouched when it is
/// not an object.
pub open spec fn canon_u_obj(v: JsonV) -> JsonV {
    match v {
        JsonV::Obj(ps) => JsonV::Obj(canon_u_pairs(ps)),
        _ => v,
    }
}

/// A stored-message record with its spellings made canonical, inside the
/// sender identity too.
pub open spec fn canon_rm_pairs(ps: Seq<(Seq<char>, JsonV)>) -> Seq<(Seq<char>, JsonV)> {
    map_pairs(
        ps,
        |k: Seq<char>| canon_rm_key(k),
        |k: Seq<char>, v: JsonV|
            if k == "u"@ {
                canon_u_obj(v)
            } else {
                v
            },
    )
}

/// The `message` member with its spellings made canonical, untouched when
/// it is not an object.
pub open spec fn canon_rm_obj(v: JsonV) -> JsonV {
    match v {
        JsonV::Obj(ps) => JsonV::Obj(canon_rm_pairs(ps)),
        _ => v,
    }
}

/// A whole reply with every alternate spelling made canonical, at the top
/// level and inside the stored message and the sender identity.
pub open spec fn canon_reply(j: JsonV) -> JsonV {
    match j {
        JsonV::Obj(ps) => JsonV::Obj(
            map_pairs(
                ps,
                |k: Seq<char>| canon_resp_key(k),
                |k: Seq<char>, v: JsonV|
                    if k == "message"@ {
                        canon_rm_obj(v)
                    } else {
                        v
                    },
            ),
        ),
        _ => j,
    }
}

/// At most one of the two spellings of a member is present.
pub open spec fn one_spelling(ps: Seq<(Seq<char>, JsonV)>, kc: Seq<char>, ka: Seq<char>) -> bool {
    !(jv_lookup(ps, kc) is Some && jv_lookup(ps, ka) is Some)
}

/// No sender-identity member is given under both spellings.
pub open spec fn unambiguous_u(v: JsonV) -> bool {
    match v {
        JsonV::Obj(ps) => one_spelling(ps, "id"@, "_id"@),
        _ => true,
    }
}

/// No stored-message member is given under both spellings, inside the
/// sender identity either.
pub open spec fn unambiguous_rm(v: JsonV) -> bool {
    match v {
        JsonV::Obj(ps) => one_spelling(ps, "parse_urls"@, "parseUrls"@) && one_spelling(
            ps,
            "updated_at"@,
            "updatedAt"@,
        ) && one_spelling(ps, "id"@, "_id"@) && (match jv_lookup(ps, "u"@) {
            Some(w) => unambiguous_u(w),
            None => true,
        }),
        _ => true,
    }
}

/// No reply member is given under both spellings, anywhere in the
/// document.
pub open spec fn unambiguous_reply(j: JsonV) -> bool {
    match j {
        JsonV::Obj(ps) => one_spelling(ps, "error_type"@, "errorType"@) && (match jv_lookup(
            ps,
            "message"@,
        ) {
            Some(w) => unambiguous_rm(w),
            None => true,
        }),
        _ => true,
    }
}

proof fn lemma_lookup_map_pairs(
    ps: Seq<(Seq<char>, JsonV)>,
    f: spec_fn(Seq<char>) -> Seq<char>,
    g: spec_fn(Seq<char>, JsonV) -> JsonV,
    key: Seq<char>,
)
    requires
        f(key) == key,
        forall|k: Seq<char>| (#[trigger] f(k)) == key ==> k == key,
    ensures
        jv_lookup(map_pairs(ps, f, g), key) == match jv_lookup(ps, key) {
            Some(v) => Some(g(key, v)),
            None => None,
        },
    decreases ps,
{
    let qs = map_pairs(ps, f, g);
    assert(qs.len() == ps.len());
    if ps.len() > 0 {
        assert(qs[0] == (f(ps[0].0), g(ps[0].0, ps[0].1)));
        assert(qs.drop_first() =~= map_pairs(ps.drop_first(), f, g));
        if ps[0].0 != key {
            assert(f(ps[0].0) != key);
            lemma_lookup_map_pairs(ps.drop_first(), f, g, key);
        }
    }
}

proof fn lemma_get2_map_pairs(
    ps: Seq<(Seq<char>, JsonV)>,
    f: spec_fn(Seq<char>) -> Seq<char>,
    g: spec_fn(Seq<char>, JsonV) -> JsonV,
    kc: Seq<char>,
    ka: Seq<char>,
)
    requires
        f(kc) == kc,
        f(ka) == kc,
        forall|k: Seq<char>| (#[trigger] f(k)) == kc ==> (k == kc || k == ka),
        forall|k: Seq<char>| (#[trigger] f(k)) != ka,
        forall|v: JsonV| (#[trigger] g(kc, v)) == v,
        forall|v: JsonV| (#[trigger] g(ka, v)) == v,
        kc != ka,
        one_spelling(ps, kc, ka),
    ensures
        get2(map_pairs(ps, f, g), kc, ka) == get2(ps, kc, ka),
    decreases ps,
{
    let qs = map_pairs(ps, f, g);
    assert(qs.len() == ps.len());
    if ps.len() > 0 {
        assert(qs[0] == (f(ps[0].0), g(ps[0].0, ps[0].1)));
        assert(qs.drop_first() =~= map_pairs(ps.drop_first(), f, g));
        if ps[0].0 == kc {
            assert(qs[0] == (kc, ps[0].1));
            assert(jv_lookup(qs, kc) == Some(ps[0].1));
            assert(jv_lookup(ps, kc) == Some(ps[0].1));
        } else if ps[0].0 == ka {
            assert(qs[0] == (kc, ps[0].1));
            assert(jv_lookup(ps, ka) is Some);
            assert(jv_lookup(ps, kc) is None);
            assert(jv_lookup(qs, kc) == Some(ps[0].1));
            assert(get2(ps, kc, ka) == Some(ps[0].1));
        } else {
            assert(f(ps[0].0) != kc);
            assert(f(ps[0].0) != ka);
            assert(jv_lookup(ps, kc) == jv_lookup(ps.drop_first(), kc));
            assert(jv_lookup(ps, ka) == jv_lookup(ps.drop_first(), ka));
            lemma_get2_map_pairs(ps.drop_first(), f, g, kc, ka);
        }
    }
}

proof fn lemma_decode_u_canon(ps: Seq<(Seq<char>, JsonV)>)
    requires
        one_spelling(ps, "id"@, "_id"@),
    ensures
        spec_decode_u(canon_u_pairs(ps)) == spec_decode_u(ps),
{
    reveal_strlit("id");
    reveal_strlit("_id");
    reveal_strlit("username");
    assert("id"@.len() == 2);
    assert("_id"@.len() == 3);
    assert("username"@.len() == 8);
    let f = |k: Seq<char>| canon_u_key(k);
    let g = |k: Seq<char>, v: JsonV| v;
    assert(canon_u_pairs(ps) =~= map_pairs(ps, f, g));
    assert forall|k: Seq<char>| (#[trigger] f(k)) == "username"@ implies k == "username"@ by {
        if k == "_id"@ {
            assert(f(k) == "id"@);
        }
    }
    assert forall|k: Seq<char>| (#[trigger] f(k)) == "id"@ implies (k == "id"@ || k == "_id"@) by {
        if k != "_id"@ {
            assert(f(k) == k);
        }
    }
    assert forall|k: Seq<char>| (#[trigger] f(k)) != "_id"@ by {
        if k == "_id"@ {
            assert(f(k) == "id"@);
        } else {
            assert(f(k) == k);
        }
    }
    lemma_get2_map_pairs(ps, f, g, "id"@, "_id"@);
    lemma_lookup_map_pairs(ps, f, g, "username"@);
}

proof fn lemma_decode_rm_canon(ps: Seq<(Seq<char>, JsonV)>)
    requires
        unambiguous_rm(JsonV::Obj(ps)),
    ensures
        spec_decode_rm(canon_rm_pairs(ps)) == spec_decode_rm(ps),
{
    reveal_strlit("alias");
    reveal_strlit("msg");
    reveal_strlit("parse_urls");
    reveal_strlit("parseUrls");
    reveal_strlit("groupable");
    reveal_strlit("u");
    reveal_strlit("ts");
    reveal_strlit("rid");
    reveal_strlit("updated_at");
    reveal_strlit("updatedAt");
    reveal_strlit("id");
    reveal_strlit("_id");
    assert("alias"@.len() == 5);
    assert("msg"@.len() == 3);
    assert("parse_urls"@.len() == 10);
    assert("parseUrls"@.len() == 9);
    assert("groupable"@.len() == 9);
    assert("u"@.len() == 1);
    assert("ts"@.len() == 2);
    assert("rid"@.len() == 3);
    assert("updated_at"@.len() == 10);
    assert("updatedAt"@.len() == 9);
    assert("id"@.len() == 2);
    assert("_id"@.len() == 3);
    assert("parse_urls"@[0] == 'p');
    assert("updated_at"@[0] == 'u');
    assert("parseUrls"@[0] == 'p');
    assert("updatedAt"@[0] == 'u');
    assert("groupable"@[0] == 'g');
    assert("id"@[0] == 'i');
    assert("ts"@[0] == 't');
    assert("msg"@[0] == 'm');
    assert("rid"@[0] == 'r');
    assert("_id"@[0] == '_');
    let f = |k: Seq<char>| canon_rm_key(k);
    let g = |k: Seq<char>, v: JsonV|
        if k == "u"@ {
            canon_u_obj(v)
        } else {
            v
        };
    assert(canon_rm_pairs(ps) =~= map_pairs(ps, f, g));
    assert forall|k: Seq<char>|
        ((#[trigger] f(k)) == "alias"@ ==> k == "alias"@) && (f(k) == "msg"@ ==> k == "msg"@) && (
        f(k) == "groupable"@ ==> k == "groupable"@) && (f(k) == "u"@ ==> k == "u"@) && (f(k)
        == "ts"@ ==> k == "ts"@) && (f(k) == "rid"@ ==> k == "rid"@) && (f(k) == "parse_urls"@
        ==> (k == "parse_urls"@ || k == "parseUrls"@)) && (f(k) == "updated_at"@ ==> (k
        == "updated_at"@ || k == "updatedAt"@)) && (f(k) == "id"@ ==> (k == "id"@ || k == "_id"@))
        && f(k) != "parseUrls"@ && f(k) != "updatedAt"@ && f(k) != "_id"@ by {
        if k == "parseUrls"@ {
            assert(f(k) == "parse_urls"@);
        } else if k == "updatedAt"@ {
            assert(f(k) == "updated_at"@);
        } else if k == "_id"@ {
            assert(f(k) == "id"@);
        } else {
            assert(f(k) == k);
        }
    }
    assert forall|v: JsonV|
        ((#[trigger] g("alias"@, v)) == v) && (g("msg"@, v) == v) && (g("parse_urls"@, v) == v) && (
        g("parseUrls"@, v) == v) && (g("groupable"@, v) == v) && (g("ts"@, v) == v) && (g(
            "rid"@,
            v,
        ) == v) && (g("updated_at"@, v) == v) && (g("updatedAt"@, v) == v) && (g("id"@, v) == v)
        && (g("_id"@, v) == v) by {}
    lemma_lookup_map_pairs(ps, f, g, "alias"@);
    lemma_lookup_map_pairs(ps, f, g, "msg"@);
    lemma_get2_map_pairs(ps, f, g, "parse_urls"@, "parseUrls"@);
    lemma_lookup_map_pairs(ps, f, g, "groupable"@);
    lemma_lookup_map_pairs(ps, f, g, "u"@);
    lemma_lookup_map_pairs(ps, f, g, "ts"@);
    lemma_lookup_map_pairs(ps, f, g, "rid"@);
    lemma_get2_map_pairs(ps, f, g, "updated_at"@, "updatedAt"@);
    lemma_get2_map_pairs(ps, f, g, "id"@, "_id"@);
    match jv_lookup(ps, "u"@) {
        Some(w) => {
            assert(jv_lookup(map_pairs(ps, f, g), "u"@) == Some(canon_u_obj(w)));
            match w {
                JsonV::Obj(ups) => {
                    lemma_decode_u_canon(ups);
                },
                _ => {},
            }
        },
        None => {},
    }
}

/// A reply that uses any alternate spelling — `errorType` at the top
/// level, `parseUrls`, `updatedAt` or `_id` in the stored message, `_id`
/// in the sender identity — decodes exactly as the same reply with every
/// spelling canonical, wherever no member is given under both spellings
/// at once.
pub proof fn law_reply_alias_tolerance(j: JsonV)
    requires
        unambiguous_reply(j),
    ensures
        spec_decode_response(canon_reply(j)) == spec_decode_response(j),
{
    match j {
        JsonV::Obj(ps) => {
            reveal_strlit("errorType");
            reveal_strlit("error_type");
            reveal_strlit("ts");
            reveal_strlit("channel");
            reveal_strlit("message");
            reveal_strlit("success");
            reveal_strlit("error");
            assert("errorType"@.len() == 9);
            assert("error_type"@.len() == 10);
            assert("ts"@.len() == 2);
            assert("channel"@.len() == 7);
            assert("message"@.len() == 7);
            assert("success"@.len() == 7);
            assert("error"@.len() == 5);
            assert("channel"@[0] == 'c');
            assert("message"@[0] == 'm');
            assert("success"@[0] == 's');
            let f = |k: Seq<char>| canon_resp_key(k);
            let g = |k: Seq<char>, v: JsonV|
                if k == "message"@ {
                    canon_rm_obj(v)
                } else {
                    v
                };
            assert(canon_reply(j)->Obj_0 =~= map_pairs(ps, f, g));
            assert forall|k: Seq<char>|
                ((#[trigger] f(k)) == "ts"@ ==> k == "ts"@) && (f(k) == "channel"@ ==> k
                    == "channel"@) && (f(k) == "message"@ ==> k == "message"@) && (f(k)
                    == "success"@ ==> k == "success"@) && (f(k) == "error"@ ==> k == "error"@) && (
                f(k) == "error_type"@ ==> (k == "error_type"@ || k == "errorType"@)) && f(k)
                    != "errorType"@ by {
                if k == "errorType"@ {
                    assert(f(k) == "error_type"@);
                } else {
                    assert(f(k) == k);
                }
            }
            assert forall|v: JsonV|
                ((#[trigger] g("ts"@, v)) == v) && (g("channel"@, v) == v) && (g("success"@, v)
                    == v) && (g("error"@, v) == v) && (g("error_type"@, v) == v) && (g(
                    "errorType"@,
                    v,
                ) == v) by {}
            lemma_lookup_map_pairs(ps, f, g, "ts"@);
            lemma_lookup_map_pairs(ps, f, g, "channel"@);
            lemma_lookup_map_pairs(ps, f, g, "message"@);
            lemma_lookup_map_pairs(ps, f, g, "success"@);
            lemma_lookup_map_pairs(ps, f, g, "error"@);
            lemma_get2_map_pairs(ps, f, g, "error_type"@, "errorType"@);
            match jv_lookup(ps, "message"@) {
                Some(w) => {
                    assert(jv_lookup(map_pairs(ps, f, g), "message"@) == Some(canon_rm_obj(w)));
                    match w {
                        JsonV::Obj(mps) => {
                            lemma_decode_rm_canon(mps);
                        },
                        _ => {},
                    }
                },
                None => {},
            }
        },
        _ => {},
    }
}

impl Response {
    /// Render the one-line human-readable summary of this reply.
    pub fn status_line(&self) -> (s: String)
        ensures
            s@ == spec_status_line(self@),
    {
        if self.success {
            String::from_str("ok")
        } else if self.error.as_str().is_empty() && !self.error_type.as_str().is_empty() {
            self.error_type.clone()
        } else if self.error.as_str().is_empty() && self.error_type.as_str().is_empty() {
            String::from_str("unknown error")
        } else {
            self.error.clone()
        }
    }
}

} // verus!
