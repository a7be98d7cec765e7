//! The KOOK gateway: its frames, the events it sends, and the OneBot events
//! they become.
use vstd::prelude::*;
use crate::json::{
    Json, JsonV, ShapeError, json_fields_view, push_field, str_member, i64_member, member, id_member,
    int_v,
};
use crate::text::{push_str, str_eq, to_string, starts_with, has_prefix, dec_int, i64_to_string};
use crate::msgid::{msg_number, cq_msg_id};
use crate::cqcode::{cq_params_encode, cq_params_encoded};
use crate::kook_api::{
    FriendInfo, GroupInfo, GroupMemberInfo, friend_info_json, member_info_json,
};

verus! {

/// The text that the zlib stream `bin` inflates to, as `flate2`'s
/// `ZlibDecoder` reads it; nothing when the stream is damaged or its bytes
/// are not UTF-8.
pub uninterp spec fn zlib_text(bin: Seq<u8>) -> Option<Seq<char>>;

/// Inflates a zlib stream to text with `flate2::read::ZlibDecoder` and
/// `Read::read_to_string`. The contract names the result.
#[verifier::external_body]
fn zlib_inflate_text(bin: &[u8]) -> (r: Option<String>)
    ensures
        r matches Some(s) ==> zlib_text(bin@) == Some(s@),
        r is None ==> zlib_text(bin@) is None,
{
    let mut s = String::new();
    match std::io::Read::read_to_string(&mut flate2::read::ZlibDecoder::new(bin), &mut s) {
        Ok(_) => Some(s),
        Err(_) => None,
    }
}

/// The text of a binary gateway frame (KOOK compresses its frames).
pub fn frame_text(bin: &[u8]) -> (r: Option<String>)
    ensures
        match r {
            Some(s) => zlib_text(bin@) == Some(s@),
            None => zlib_text(bin@) is None,
        },
{
    zlib_inflate_text(bin)
}

/// What a gateway frame means, by its signal `s`.
pub enum KookFrame {
    /// `s` 0: an event `d` with serial number `sn`.
    Event(Json, i64),
    /// `s` 1: the connection is up.
    Hello,
    /// `s` 3: the answer to a ping.
    Pong,
    /// `s` 5: reconnect.
    Reconnect,
    /// Any other signal.
    Unknown,
}

pub enum KookFrameV {
    Event(JsonV, i64),
    Hello,
    Pong,
    Reconnect,
    Unknown,
}

impl View for KookFrame {
    type V = KookFrameV;

    open spec fn view(&self) -> KookFrameV {
        match self {
            KookFrame::Event(d, sn) => KookFrameV::Event(d@, *sn),
            KookFrame::Hello => KookFrameV::Hello,
            KookFrame::Pong => KookFrameV::Pong,
            KookFrame::Reconnect => KookFrameV::Reconnect,
            KookFrame::Unknown => KookFrameV::Unknown,
        }
    }
}

/// A gateway frame by its signal `s`: 5 reconnect, 1 hello, 0 an event
/// (its `d` and then its `sn`), 3 pong, anything else unknown.
pub open spec fn frame_spec(js: JsonV) -> Result<KookFrameV, ShapeError> {
    match i64_member(js, "s"@) {
        Err(e) => Err(e),
        Ok(s) => if s == 5 {
            Ok(KookFrameV::Reconnect)
        } else if s == 1 {
            Ok(KookFrameV::Hello)
        } else if s == 0 {
            match member(js, "d"@) {
                Err(e) => Err(e),
                Ok(d) => match i64_member(js, "sn"@) {
                    Err(e) => Err(e),
                    Ok(sn) => Ok(KookFrameV::Event(d, sn)),
                },
            }
        } else if s == 3 {
            Ok(KookFrameV::Pong)
        } else {
            Ok(KookFrameV::Unknown)
        },
    }
}

/// What a gateway frame means.
pub fn classify_frame(js: &Json) -> (r: Result<KookFrame, ShapeError>)
    ensures
        match r {
            Ok(f) => frame_spec(js@) == Ok::<KookFrameV, ShapeError>(f@),
            Err(e) => frame_spec(js@) == Err::<KookFrameV, ShapeError>(e),
        },
{
    let s = match js.i64_member("s") {
        Ok(s) => s,
        Err(e) => return Err(e),
    };
    if s == 5 {
        Ok(KookFrame::Reconnect)
    } else if s == 1 {
        Ok(KookFrame::Hello)
    } else if s == 0 {
        let d = match js.member("d") {
            Ok(d) => d,
            Err(e) => return Err(e),
        };
        let sn = match js.i64_member("sn") {
            Ok(n) => n,
            Err(e) => return Err(e),
        };
        Ok(KookFrame::Event(d.deep_clone(), sn))
    } else if s == 3 {
        Ok(KookFrame::Pong)
    } else {
        Ok(KookFrame::Unknown)
    }
}

/// The ping sent to the gateway every 30 seconds: `{"s": 2, "sn": <sn>}`
/// with the serial number of the last event received.
pub fn ping_frame(sn: i64) -> (r: Json)
    ensures
        r@ == JsonV::Object(seq![("s"@, JsonV::PosInt(2)), ("sn"@, int_v(sn))]),
{
    let mut f: Vec<(String, Json)> = Vec::new();
    push_field(&mut f, "s", Json::PosInt(2));
    push_field(&mut f, "sn", Json::from_i64(sn));
    assert(json_fields_view(f@) =~= seq![("s"@, JsonV::PosInt(2)), ("sn"@, int_v(sn))]);
    Json::Object(f)
}

/// What a KOOK event asks of the bridge.
#[derive(Debug, Clone, Copy, PartialEq, Eq, Structural)]
pub enum KookEvent {
    /// Nothing: an event the bridge does not pass on.
    Ignore,
    /// A channel message from this user.
    GroupMessage(u64),
    /// A private message from this user.
    PrivateMessage(u64),
    /// Someone left a guild.
    GroupDecrease,
    /// Someone joined a guild.
    GroupIncrease,
    /// A channel message was deleted.
    GroupRecall,
    /// A private message was deleted.
    PrivateRecall,
}

/// The kind of a system event (author 1, type 255): `extra.type`.
pub open spec fn system_kind(d: JsonV) -> Result<Option<Seq<char>>, ShapeError> {
    match i64_member(d, "type"@) {
        Err(e) => Err(e),
        Ok(tp) => if tp != 255 {
            Ok(None)
        } else {
            match member(d, "extra"@) {
                Err(e) => Err(e),
                Ok(ex) => match str_member(ex, "type"@) {
                    Err(e) => Err(e),
                    Ok(k) => Ok(Some(k)),
                },
            }
        },
    }
}

/// What a KOOK event asks: by `channel_type` (`GROUP` or `PERSON`), then by
/// `author_id` read as a number. Author 1 is the system: of its events
/// (type 255) a guild exit, a guild join and deleted messages count. Any
/// other author's message counts, except the bot's own channel messages.
pub open spec fn kook_event_spec(d: JsonV, self_id: u64) -> Result<KookEvent, ShapeError> {
    match str_member(d, "channel_type"@) {
        Err(e) => Err(e),
        Ok(ct) => if ct == "GROUP"@ {
            match id_member(d, "author_id"@) {
                Err(e) => Err(e),
                Ok(uid) => if uid == 1 {
                    match system_kind(d) {
                        Err(e) => Err(e),
                        Ok(None) => Ok(KookEvent::Ignore),
                        Ok(Some(k)) => if k == "exited_guild"@ {
                            Ok(KookEvent::GroupDecrease)
                        } else if k == "joined_guild"@ {
                            Ok(KookEvent::GroupIncrease)
                        } else if k == "deleted_message"@ {
                            Ok(KookEvent::GroupRecall)
                        } else {
                            Ok(KookEvent::Ignore)
                        },
                    }
                } else if uid != self_id {
                    Ok(KookEvent::GroupMessage(uid))
                } else {
                    Ok(KookEvent::Ignore)
                },
            }
        } else if ct == "PERSON"@ {
            match id_member(d, "author_id"@) {
                Err(e) => Err(e),
                Ok(uid) => if uid == 1 {
                    match system_kind(d) {
                        Err(e) => Err(e),
                        Ok(None) => Ok(KookEvent::Ignore),
                        Ok(Some(k)) => if k == "deleted_private_message"@ {
                            Ok(KookEvent::PrivateRecall)
                        } else {
                            Ok(KookEvent::Ignore)
                        },
                    }
                } else {
                    Ok(KookEvent::PrivateMessage(uid))
                },
            }
        } else {
            Ok(KookEvent::Ignore)
        },
    }
}

fn read_system_kind(d: &Json) -> (r: Result<Option<String>, ShapeError>)
    ensures
        match r {
            Ok(Some(k)) => system_kind(d@) == Ok::<Option<Seq<char>>, ShapeError>(Some(k@)),
            Ok(None) => system_kind(d@) == Ok::<Option<Seq<char>>, ShapeError>(None),
            Err(e) => system_kind(d@) == Err::<Option<Seq<char>>, ShapeError>(e),
        },
{
    let tp = match d.i64_member("type") {
        Ok(t) => t,
        Err(e) => return Err(e),
    };
    if tp != 255 {
        return Ok(None);
    }
    let ex = match d.member("extra") {
        Ok(x) => x,
        Err(e) => return Err(e),
    };
    match ex.str_member("type") {
        Ok(k) => Ok(Some(k)),
        Err(e) => Err(e),
    }
}

/// What a KOOK event (the `d` of an event frame) asks of the bridge.
pub fn classify_event(d: &Json, self_id: u64) -> (r: Result<KookEvent, ShapeError>)
    ensures
        r == kook_event_spec(d@, self_id),
{
    let ct = match d.str_member("channel_type") {
        Ok(s) => s,
        Err(e) => return Err(e),
    };
    if str_eq(ct.as_str(), "GROUP") {
        let uid = match d.id_member("author_id") {
            Ok(n) => n,
            Err(e) => return Err(e),
        };
        if uid == 1 {
            match read_system_kind(d) {
                Err(e) => Err(e),
                Ok(None) => Ok(KookEvent::Ignore),
                Ok(Some(k)) => if str_eq(k.as_str(), "exited_guild") {
                    Ok(KookEvent::GroupDecrease)
                } else if str_eq(k.as_str(), "joined_guild") {
                    Ok(KookEvent::GroupIncrease)
                } else if str_eq(k.as_str(), "deleted_message") {
                    Ok(KookEvent::GroupRecall)
                } else {
                    Ok(KookEvent::Ignore)
                },
            }
        } else if uid != self_id {
            Ok(KookEvent::GroupMessage(uid))
        } else {
            Ok(KookEvent::Ignore)
        }
    } else if str_eq(ct.as_str(), "PERSON") {
        let uid = match d.id_member("author_id") {
            Ok(n) => n,
            Err(e) => return Err(e),
        };
        if uid == 1 {
            match read_system_kind(d) {
                Err(e) => Err(e),
                Ok(None) => Ok(KookEvent::Ignore),
                Ok(Some(k)) => if str_eq(k.as_str(), "deleted_private_message") {
                    Ok(KookEvent::PrivateRecall)
                } else {
                    Ok(KookEvent::Ignore)
                },
            }
        } else {
            Ok(KookEvent::PrivateMessage(uid))
        }
    } else {
        Ok(KookEvent::Ignore)
    }
}

/// The `extra.body` of a system event.
pub open spec fn event_body(d: JsonV) -> Result<JsonV, ShapeError> {
    match member(d, "extra"@) {
        Err(e) => Err(e),
        Ok(ex) => member(ex, "body"@),
    }
}

/// A guild exit or join: the guild (`target_id`), and the user
/// (`extra.body.user_id`, read as a number).
pub open spec fn member_change_spec(d: JsonV) -> Result<(Seq<char>, u64), ShapeError> {
    match str_member(d, "target_id"@) {
        Err(e) => Err(e),
        Ok(guild_id) => match event_body(d) {
            Err(e) => Err(e),
            Ok(b) => match id_member(b, "user_id"@) {
                Err(e) => Err(e),
                Ok(uid) => Ok((guild_id, uid)),
            },
        },
    }
}

fn read_body(d: &Json) -> (r: Result<&Json, ShapeError>)
    ensures
        match r {
            Ok(b) => event_body(d@) == Ok::<JsonV, ShapeError>(b@),
            Err(e) => event_body(d@) == Err::<JsonV, ShapeError>(e),
        },
{
    match d.member("extra") {
        Err(e) => Err(e),
        Ok(ex) => ex.member("body"),
    }
}

/// The guild and the user of a guild exit or join.
pub fn member_change(d: &Json) -> (r: Result<(String, u64), ShapeError>)
    ensures
        match r {
            Ok((g, u)) => member_change_spec(d@) == Ok::<(Seq<char>, u64), ShapeError>((g@, u)),
            Err(e) => member_change_spec(d@) == Err::<(Seq<char>, u64), ShapeError>(e),
        },
{
    let guild_id = match d.str_member("target_id") {
        Ok(s) => s,
        Err(e) => return Err(e),
    };
    let b = match read_body(d) {
        Ok(b) => b,
        Err(e) => return Err(e),
    };
    match b.id_member("user_id") {
        Ok(uid) => Ok((guild_id, uid)),
        Err(e) => Err(e),
    }
}

/// A deleted message: its KOOK id (`extra.body.msg_id`) and the number in
/// `extra.body.<who>` (`channel_id` in a channel, `author_id` in private).
pub open spec fn recall_spec(d: JsonV, who: Seq<char>) -> Result<(Seq<char>, u64), ShapeError> {
    match event_body(d) {
        Err(e) => Err(e),
        Ok(b) => match str_member(b, "msg_id"@) {
            Err(e) => Err(e),
            Ok(msg_id) => match id_member(b, who) {
                Err(e) => Err(e),
                Ok(n) => Ok((msg_id, n)),
            },
        },
    }
}

/// The KOOK id of a deleted message and the channel (`who` = `channel_id`)
/// or author (`who` = `author_id`) it was in.
pub fn recall_parts(d: &Json, who: &str) -> (r: Result<(String, u64), ShapeError>)
    ensures
        match r {
            Ok((m, n)) => recall_spec(d@, who@) == Ok::<(Seq<char>, u64), ShapeError>((m@, n)),
            Err(e) => recall_spec(d@, who@) == Err::<(Seq<char>, u64), ShapeError>(e),
        },
{
    let b = match read_body(d) {
        Ok(b) => b,
        Err(e) => return Err(e),
    };
    let msg_id = match b.str_member("msg_id") {
        Ok(s) => s,
        Err(e) => return Err(e),
    };
    match b.id_member(who) {
        Ok(n) => Ok((msg_id, n)),
        Err(e) => Err(e),
    }
}

/// The parts of a KOOK message the bridge reads.
pub struct KookMessage {
    /// The channel (channel messages only; 0 for private ones).
    pub group_id: u64,
    /// The sender's name (private messages only; empty for channel ones).
    pub username: String,
    pub content: String,
    /// KOOK's message type: 2 a picture, 10 a card.
    pub msg_type: i64,
    pub msg_id: String,
    /// The KOOK id of the message this one quotes, if it quotes one.
    pub quote: Option<String>,
}

pub open spec fn opt_view(o: Option<String>) -> Option<Seq<char>> {
    match o {
        Some(s) => Some(s@),
        None => None,
    }
}

/// The message a KOOK message quotes: the string `extra.quote.id`, when
/// there is one.
pub open spec fn quote_of(d: JsonV) -> Option<Seq<char>> {
    match d.get("extra"@) {
        Some(ex) => match ex.get("quote"@) {
            Some(q) => match q.get("id"@) {
                Some(JsonV::Str(id)) => Some(id),
                _ => None,
            },
            None => None,
        },
        None => None,
    }
}

fn read_quote(d: &Json) -> (r: Option<String>)
    ensures
        opt_view(r) == quote_of(d@),
{
    match d.get("extra") {
        Some(ex) => match ex.get("quote") {
            Some(q) => match q.get("id") {
                Some(Json::Str(id)) => Some(id.clone()),
                _ => None,
            },
            None => None,
        },
        None => None,
    }
}

/// A channel message: `target_id` read as a number, `content`, `type`,
/// `msg_id` (the quote, which may be absent, is read apart: `quote_of`).
pub open spec fn group_message_spec(d: JsonV) -> Result<(u64, Seq<char>, i64, Seq<char>), ShapeError> {
    match id_member(d, "target_id"@) {
        Err(e) => Err(e),
        Ok(gid) => match str_member(d, "content"@) {
            Err(e) => Err(e),
            Ok(content) => match i64_member(d, "type"@) {
                Err(e) => Err(e),
                Ok(tp) => match str_member(d, "msg_id"@) {
                    Err(e) => Err(e),
                    Ok(mid) => Ok((gid, content, tp, mid)),
                },
            },
        },
    }
}

/// A private message: `content`, `extra.author.username`, `type`, `msg_id`.
pub open spec fn private_message_spec(d: JsonV) -> Result<
    (Seq<char>, Seq<char>, i64, Seq<char>),
    ShapeError,
> {
    match str_member(d, "content"@) {
        Err(e) => Err(e),
        Ok(content) => match member(d, "extra"@) {
            Err(e) => Err(e),
            Ok(ex) => match member(ex, "author"@) {
                Err(e) => Err(e),
                Ok(author) => match str_member(author, "username"@) {
                    Err(e) => Err(e),
                    Ok(username) => match i64_member(d, "type"@) {
                        Err(e) => Err(e),
                        Ok(tp) => match str_member(d, "msg_id"@) {
                            Err(e) => Err(e),
                            Ok(mid) => Ok((content, username, tp, mid)),
                        },
                    },
                },
            },
        },
    }
}

/// Reads a channel message.
pub fn group_message(d: &Json) -> (r: Result<KookMessage, ShapeError>)
    ensures
        match r {
            Ok(m) => group_message_spec(d@) == Ok::<(u64, Seq<char>, i64, Seq<char>), ShapeError>(
                (m.group_id, m.content@, m.msg_type, m.msg_id@),
            ) && m.username@ == Seq::<char>::empty() && opt_view(m.quote) == quote_of(d@),
            Err(e) => group_message_spec(d@) == Err::<(u64, Seq<char>, i64, Seq<char>), ShapeError>(
                e,
            ),
        },
{
    let group_id = match d.id_member("target_id") {
        Ok(n) => n,
        Err(e) => return Err(e),
    };
    let content = match d.str_member("content") {
        Ok(s) => s,
        Err(e) => return Err(e),
    };
    let msg_type = match d.i64_member("type") {
        Ok(n) => n,
        Err(e) => return Err(e),
    };
    let msg_id = match d.str_member("msg_id") {
        Ok(s) => s,
        Err(e) => return Err(e),
    };
    let quote = read_quote(d);
    Ok(KookMessage { group_id, username: String::new(), content, msg_type, msg_id, quote })
}

/// Reads a private message.
pub fn private_message(d: &Json) -> (r: Result<KookMessage, ShapeError>)
    ensures
        match r {
            Ok(m) => private_message_spec(d@) == Ok::<
                (Seq<char>, Seq<char>, i64, Seq<char>),
                ShapeError,
            >((m.content@, m.username@, m.msg_type, m.msg_id@)) && m.group_id == 0 && opt_view(
                m.quote,
            ) == quote_of(d@),
            Err(e) => private_message_spec(d@) == Err::<
                (Seq<char>, Seq<char>, i64, Seq<char>),
                ShapeError,
            >(e),
        },
{
    let content = match d.str_member("content") {
        Ok(s) => s,
        Err(e) => return Err(e),
    };
    let ex = match d.member("extra") {
        Ok(x) => x,
        Err(e) => return Err(e),
    };
    let author = match ex.member("author") {
        Ok(x) => x,
        Err(e) => return Err(e),
    };
    let username = match author.str_member("username") {
        Ok(s) => s,
        Err(e) => return Err(e),
    };
    let msg_type = match d.i64_member("type") {
        Ok(n) => n,
        Err(e) => return Err(e),
    };
    let msg_id = match d.str_member("msg_id") {
        Ok(s) => s,
        Err(e) => return Err(e),
    };
    let quote = read_quote(d);
    Ok(KookMessage { group_id: 0, username, content, msg_type, msg_id, quote })
}

/// What `regex::Regex::new(pattern)` and then `replace_all(hay, rep)` give:
/// nothing when the pattern does not compile.
pub uninterp spec fn regex_replaced(pattern: Seq<char>, hay: Seq<char>, rep: Seq<char>) -> Option<
    Seq<char>,
>;

/// Replaces every match of `pattern` in `hay` by `rep` with the `regex`
/// crate (`Regex::new`, `Regex::replace_all`). The contract names the result.
#[verifier::external_body]
fn regex_replace_all(pattern: &str, hay: &str, rep: &str) -> (r: Option<String>)
    ensures
        r matches Some(s) ==> regex_replaced(pattern@, hay@, rep@) == Some(s@),
        r is None ==> regex_replaced(pattern@, hay@, rep@) is None,
{
    match regex::Regex::new(pattern) {
        Ok(re) => Some(re.replace_all(hay, rep).into_owned()),
        Err(_) => None,
    }
}

/// KOOK's mention markup: `(met)<id>(met)` or `(met)all(met)`.
pub open spec fn at_pattern() -> Seq<char> {
    "\\(met\\)(?P<qq>(\\d+)|(all))\\(met\\)"@
}

/// A OneBot mention: `[CQ:at,qq=<id>]`.
pub open spec fn at_replacement() -> Seq<char> {
    "[CQ:at,qq=$qq]"@
}

/// A picture as a CQ code: `[CQ:image,file=<url>,url=<url>]`.
pub open spec fn image_cq_spec(url: Seq<char>) -> Seq<char> {
    "[CQ:image,file="@ + cq_params_encoded(url) + ",url="@ + cq_params_encoded(url) + "]"@
}

/// A KOOK message as OneBot text: a picture (type 2) becomes an image CQ
/// code, other content stays; then every KOOK mention becomes an at CQ code.
pub open spec fn onebot_text_spec(content: Seq<char>, msg_type: i64) -> Option<Seq<char>> {
    let t = if msg_type == 2 {
        image_cq_spec(content)
    } else {
        content
    };
    regex_replaced(at_pattern(), t, at_replacement())
}

/// A picture as a CQ code.
pub fn image_cq(url: &str) -> (r: String)
    ensures
        r@ == image_cq_spec(url@),
{
    let enc = cq_params_encode(url);
    let mut s = to_string("[CQ:image,file=");
    push_str(&mut s, enc.as_str());
    push_str(&mut s, ",url=");
    push_str(&mut s, enc.as_str());
    push_str(&mut s, "]");
    s
}

/// The OneBot text of a KOOK message of type `msg_type`; nothing only if
/// the mention pattern would not compile.
pub fn onebot_text(content: &str, msg_type: i64) -> (r: Option<String>)
    ensures
        match r {
            Some(t) => onebot_text_spec(content@, msg_type) == Some(t@),
            None => onebot_text_spec(content@, msg_type) is None,
        },
{
    let t = if msg_type == 2 {
        image_cq(content)
    } else {
        to_string(content)
    };
    regex_replace_all(
        "\\(met\\)(?P<qq>(\\d+)|(all))\\(met\\)",
        t.as_str(),
        "[CQ:at,qq=$qq]",
    )
}

/// A reply CQ code for the KOOK message `quote`: its OneBot number is the
/// one `add_msg_id` gives a message whose first KOOK id is `quote`.
pub open spec fn reply_cq_spec(quote: Seq<char>) -> Seq<char> {
    "[CQ:reply,id="@ + dec_int(msg_number(quote) as int) + "]"@
}

/// A KOOK message as the OneBot message of its event: a quote becomes a
/// leading reply CQ code, before the text that `onebot_text_spec` gives.
pub open spec fn onebot_message_spec(content: Seq<char>, msg_type: i64, quote: Option<Seq<char>>) -> Option<
    Seq<char>,
> {
    match onebot_text_spec(content, msg_type) {
        None => None,
        Some(t) => Some(
            match quote {
                Some(q) => reply_cq_spec(q) + t,
                None => t,
            },
        ),
    }
}

/// The OneBot message of a KOOK message; nothing only if the mention
/// pattern would not compile.
pub fn onebot_message(m: &KookMessage) -> (r: Option<String>)
    ensures
        opt_view(r) == onebot_message_spec(m.content@, m.msg_type, opt_view(m.quote)),
{
    let t = match onebot_text(m.content.as_str(), m.msg_type) {
        Some(t) => t,
        None => return None,
    };
    match &m.quote {
        Some(q) => {
            let mut s = to_string("[CQ:reply,id=");
            let n = i64_to_string(cq_msg_id(q.as_str()) as i64);
            push_str(&mut s, n.as_str());
            push_str(&mut s, "]");
            push_str(&mut s, t.as_str());
            Some(s)
        },
        None => Some(t),
    }
}

/// A file shared in a channel.
pub struct FileInfo {
    pub url: String,
    pub name: String,
    pub size: i64,
    pub busid: i64,
}

pub open spec fn file_info_json(f: FileInfo) -> JsonV {
    JsonV::Object(
        seq![
            ("url"@, JsonV::Str(f.url@)),
            ("name"@, JsonV::Str(f.name@)),
            ("size"@, int_v(f.size)),
            ("busid"@, int_v(f.busid)),
        ],
    )
}

impl FileInfo {
    /// The file as OneBot writes it.
    pub fn to_json(&self) -> (r: Json)
        ensures
            r@ == file_info_json(*self),
    {
        let mut f: Vec<(String, Json)> = Vec::new();
        push_field(&mut f, "url", Json::Str(self.url.clone()));
        push_field(&mut f, "name", Json::Str(self.name.clone()));
        push_field(&mut f, "size", Json::from_i64(self.size));
        push_field(&mut f, "busid", Json::from_i64(self.busid));
        assert(json_fields_view(f@) =~= file_info_json(*self)->Object_0);
        Json::Object(f)
    }
}

/// The file that a card message (type 10) shares: a card array of exactly
/// one card with exactly one module, of type `file`, whose `src` is on
/// `https://img.kookapp.cn/`; its url, `title` and `size`. Any other card
/// shares no file.
pub open spec fn card_file_spec(card: JsonV) -> Option<(Seq<char>, Seq<char>, i64)> {
    match card.as_array() {
        None => None,
        Some(arr) => if arr.len() != 1 {
            None
        } else {
            match arr[0].get("modules"@) {
                None => None,
                Some(m) => match m.as_array() {
                    None => None,
                    Some(md) => if md.len() != 1 {
                        None
                    } else {
                        let obj = md[0];
                        match str_member(obj, "type"@) {
                            Err(_) => None,
                            Ok(tp) => if tp != "file"@ {
                                None
                            } else {
                                match str_member(obj, "src"@) {
                                    Err(_) => None,
                                    Ok(url) => if !has_prefix(url, "https://img.kookapp.cn/"@) {
                                        None
                                    } else {
                                        match str_member(obj, "title"@) {
                                            Err(_) => None,
                                            Ok(name) => match i64_member(obj, "size"@) {
                                                Err(_) => None,
                                                Ok(size) => Some((url, name, size)),
                                            },
                                        }
                                    },
                                }
                            },
                        }
                    },
                },
            }
        },
    }
}

/// The file a card message shares, if any (`busid` is always 0).
pub fn card_file(card: &Json) -> (r: Option<FileInfo>)
    ensures
        match r {
            Some(f) => card_file_spec(card@) == Some((f.url@, f.name@, f.size)) && f.busid == 0,
            None => card_file_spec(card@) is None,
        },
{
    let arr = match card.as_array() {
        Some(a) => a,
        None => return None,
    };
    proof {
        crate::json::lemma_seq_view(arr@);
    }
    if arr.len() != 1 {
        return None;
    }
    let md = match arr[0].get("modules") {
        Some(m) => match m.as_array() {
            Some(a) => a,
            None => return None,
        },
        None => return None,
    };
    proof {
        crate::json::lemma_seq_view(md@);
    }
    if md.len() != 1 {
        return None;
    }
    let obj = &md[0];
    let tp = match obj.str_member("type") {
        Ok(s) => s,
        Err(_) => return None,
    };
    if !str_eq(tp.as_str(), "file") {
        return None;
    }
    let url = match obj.str_member("src") {
        Ok(s) => s,
        Err(_) => return None,
    };
    if !starts_with(url.as_str(), "https://img.kookapp.cn/") {
        return None;
    }
    let name = match obj.str_member("title") {
        Ok(s) => s,
        Err(_) => return None,
    };
    let size = match obj.i64_member("size") {
        Ok(n) => n,
        Err(_) => return None,
    };
    Some(FileInfo { url, name, size, busid: 0 })
}

/// The fields every OneBot event starts with.
pub open spec fn event_head(time: u64, self_id: u64, post_type: Seq<char>) -> Seq<(Seq<char>, JsonV)> {
    seq![
        ("time"@, JsonV::PosInt(time)),
        ("self_id"@, JsonV::PosInt(self_id)),
        ("post_type"@, JsonV::Str(post_type)),
    ]
}

fn head(time: u64, self_id: u64, post_type: &str) -> (r: Vec<(String, Json)>)
    ensures
        json_fields_view(r@) == event_head(time, self_id, post_type@),
{
    let mut f: Vec<(String, Json)> = Vec::new();
    push_field(&mut f, "time", Json::PosInt(time));
    push_field(&mut f, "self_id", Json::PosInt(self_id));
    push_field(&mut f, "post_type", Json::str_of(post_type));
    assert(json_fields_view(f@) =~= event_head(time, self_id, post_type@));
    f
}

/// The OneBot event for a channel message.
pub open spec fn group_message_event_spec(
    time: u64,
    self_id: u64,
    message_id: i32,
    group_id: u64,
    user_id: u64,
    msg: Seq<char>,
    sender: JsonV,
) -> JsonV {
    JsonV::Object(
        event_head(time, self_id, "message"@) + seq![
            ("message_type"@, JsonV::Str("group"@)),
            ("sub_type"@, JsonV::Str("normal"@)),
            ("message_id"@, int_v(message_id as i64)),
            ("group_id"@, JsonV::PosInt(group_id)),
            ("user_id"@, JsonV::PosInt(user_id)),
            ("message"@, JsonV::Str(msg)),
            ("raw_message"@, JsonV::Str(msg)),
            ("font"@, JsonV::PosInt(0)),
            ("sender"@, sender),
        ],
    )
}

/// A channel message as a OneBot event.
pub fn group_message_event(
    time: u64,
    self_id: u64,
    message_id: i32,
    group_id: u64,
    user_id: u64,
    msg: &str,
    sender: &GroupMemberInfo,
) -> (r: Json)
    ensures
        r@ == group_message_event_spec(
            time,
            self_id,
            message_id,
            group_id,
            user_id,
            msg@,
            member_info_json(*sender),
        ),
{
    let mut f = head(time, self_id, "message");
    push_field(&mut f, "message_type", Json::str_of("group"));
    push_field(&mut f, "sub_type", Json::str_of("normal"));
    push_field(&mut f, "message_id", Json::from_i64(message_id as i64));
    push_field(&mut f, "group_id", Json::PosInt(group_id));
    push_field(&mut f, "user_id", Json::PosInt(user_id));
    push_field(&mut f, "message", Json::str_of(msg));
    push_field(&mut f, "raw_message", Json::str_of(msg));
    push_field(&mut f, "font", Json::PosInt(0));
    push_field(&mut f, "sender", sender.to_json());
    assert(json_fields_view(f@) =~= group_message_event_spec(
        time,
        self_id,
        message_id,
        group_id,
        user_id,
        msg@,
        member_info_json(*sender),
    )->Object_0);
    Json::Object(f)
}

/// The OneBot event for a private message.
pub open spec fn private_message_event_spec(
    time: u64,
    self_id: u64,
    message_id: i32,
    user_id: u64,
    msg: Seq<char>,
    sender: JsonV,
) -> JsonV {
    JsonV::Object(
        event_head(time, self_id, "message"@) + seq![
            ("message_type"@, JsonV::Str("private"@)),
            ("sub_type"@, JsonV::Str("friend"@)),
            ("message_id"@, int_v(message_id as i64)),
            ("user_id"@, JsonV::PosInt(user_id)),
            ("message"@, JsonV::Str(msg)),
            ("raw_message"@, JsonV::Str(msg)),
            ("font"@, JsonV::PosInt(0)),
            ("sender"@, sender),
        ],
    )
}

/// A private message as a OneBot event; the sender is a friend whose
/// nickname and remark are its KOOK username.
pub fn private_message_event(
    time: u64,
    self_id: u64,
    message_id: i32,
    user_id: u64,
    msg: &str,
    username: &str,
) -> (r: Json)
    ensures
        r@ == private_message_event_spec(
            time,
            self_id,
            message_id,
            user_id,
            msg@,
            JsonV::Object(
                seq![
                    ("user_id"@, JsonV::PosInt(user_id)),
                    ("nickname"@, JsonV::Str(username@)),
                    ("remark"@, JsonV::Str(username@)),
                ],
            ),
        ),
{
    let sender = FriendInfo {
        user_id,
        nickname: to_string(username),
        remark: to_string(username),
    };
    let mut f = head(time, self_id, "message");
    push_field(&mut f, "message_type", Json::str_of("private"));
    push_field(&mut f, "sub_type", Json::str_of("friend"));
    push_field(&mut f, "message_id", Json::from_i64(message_id as i64));
    push_field(&mut f, "user_id", Json::PosInt(user_id));
    push_field(&mut f, "message", Json::str_of(msg));
    push_field(&mut f, "raw_message", Json::str_of(msg));
    push_field(&mut f, "font", Json::PosInt(0));
    push_field(&mut f, "sender", sender.to_json());
    assert(json_fields_view(f@) =~= private_message_event_spec(
        time,
        self_id,
        message_id,
        user_id,
        msg@,
        friend_info_json(sender),
    )->Object_0);
    Json::Object(f)
}

/// The OneBot notice for a file shared in a channel.
pub open spec fn group_upload_spec(time: u64, self_id: u64, group_id: u64, user_id: u64, file: JsonV) -> JsonV {
    JsonV::Object(
        event_head(time, self_id, "notice"@) + seq![
            ("notice_type"@, JsonV::Str("group_upload"@)),
            ("group_id"@, JsonV::PosInt(group_id)),
            ("user_id"@, JsonV::PosInt(user_id)),
            ("file"@, file),
        ],
    )
}

/// A file shared in a channel as a OneBot notice.
pub fn group_upload_event(time: u64, self_id: u64, group_id: u64, user_id: u64, file: &FileInfo) -> (r: Json)
    ensures
        r@ == group_upload_spec(time, self_id, group_id, user_id, file_info_json(*file)),
{
    let mut f = head(time, self_id, "notice");
    push_field(&mut f, "notice_type", Json::str_of("group_upload"));
    push_field(&mut f, "group_id", Json::PosInt(group_id));
    push_field(&mut f, "user_id", Json::PosInt(user_id));
    push_field(&mut f, "file", file.to_json());
    assert(json_fields_view(f@) =~= group_upload_spec(
        time,
        self_id,
        group_id,
        user_id,
        file_info_json(*file),
    )->Object_0);
    Json::Object(f)
}

/// The OneBot notice that user `user_id` left (`joined` false) or joined
/// a guild, for one of its channels.
pub open spec fn member_notice_spec(time: u64, self_id: u64, group_id: u64, user_id: u64, joined: bool) -> JsonV {
    JsonV::Object(
        event_head(time, self_id, "notice"@) + if joined {
            seq![
                ("notice_type"@, JsonV::Str("group_increase"@)),
                ("sub_type"@, JsonV::Str("approve"@)),
                ("message_id"@, JsonV::PosInt(0)),
                ("group_id"@, JsonV::PosInt(group_id)),
                ("operator_id"@, JsonV::PosInt(user_id)),
                ("user_id"@, JsonV::PosInt(user_id)),
            ]
        } else {
            seq![
                ("notice_type"@, JsonV::Str("group_decrease"@)),
                ("sub_type"@, JsonV::Str("leave"@)),
                ("group_id"@, JsonV::PosInt(group_id)),
                ("operator_id"@, JsonV::PosInt(user_id)),
                ("user_id"@, JsonV::PosInt(user_id)),
            ]
        },
    )
}

fn member_notice(time: u64, self_id: u64, group_id: u64, user_id: u64, joined: bool) -> (r: Json)
    ensures
        r@ == member_notice_spec(time, self_id, group_id, user_id, joined),
{
    let mut f = head(time, self_id, "notice");
    if joined {
        push_field(&mut f, "notice_type", Json::str_of("group_increase"));
        push_field(&mut f, "sub_type", Json::str_of("approve"));
        push_field(&mut f, "message_id", Json::PosInt(0));
    } else {
        push_field(&mut f, "notice_type", Json::str_of("group_decrease"));
        push_field(&mut f, "sub_type", Json::str_of("leave"));
    }
    push_field(&mut f, "group_id", Json::PosInt(group_id));
    push_field(&mut f, "operator_id", Json::PosInt(user_id));
    push_field(&mut f, "user_id", Json::PosInt(user_id));
    assert(json_fields_view(f@) =~= member_notice_spec(
        time,
        self_id,
        group_id,
        user_id,
        joined,
    )->Object_0);
    Json::Object(f)
}

/// The notices that user `user_id` left or joined a guild: one for each of
/// the guild's channels, in order.
pub fn member_notices(time: u64, self_id: u64, channels: &Vec<GroupInfo>, user_id: u64, joined: bool) -> (r:
    Vec<Json>)
    ensures
        r@.len() == channels@.len(),
        forall|i: int|
            0 <= i < r@.len() ==> (#[trigger] r@[i])@ == member_notice_spec(
                time,
                self_id,
                channels@[i].group_id,
                user_id,
                joined,
            ),
{
    let mut out: Vec<Json> = Vec::new();
    let mut i: usize = 0;
    while i < channels.len()
        invariant
            i <= channels@.len(),
            out@.len() == i,
            forall|j: int|
                0 <= j < i ==> (#[trigger] out@[j])@ == member_notice_spec(
                    time,
                    self_id,
                    channels@[j].group_id,
                    user_id,
                    joined,
                ),
        decreases channels@.len() - i,
    {
        out.push(member_notice(time, self_id, channels[i].group_id, user_id, joined));
        i = i + 1;
    }
    out
}

/// The OneBot notice that a channel message of `user_id` was deleted. KOOK
/// does not say who deleted it: the operator is always 1.
pub open spec fn group_recall_spec(time: u64, self_id: u64, group_id: u64, user_id: u64, message_id: i32) -> JsonV {
    JsonV::Object(
        event_head(time, self_id, "notice"@) + seq![
            ("notice_type"@, JsonV::Str("group_recall"@)),
            ("group_id"@, JsonV::PosInt(group_id)),
            ("user_id"@, JsonV::PosInt(user_id)),
            ("operator_id"@, JsonV::PosInt(1)),
            ("message_id"@, int_v(message_id as i64)),
        ],
    )
}

/// A deleted channel message as a OneBot notice: `user_id` wrote it.
pub fn group_recall_event(time: u64, self_id: u64, group_id: u64, user_id: u64, message_id: i32) -> (r: Json)
    ensures
        r@ == group_recall_spec(time, self_id, group_id, user_id, message_id),
{
    let mut f = head(time, self_id, "notice");
    push_field(&mut f, "notice_type", Json::str_of("group_recall"));
    push_field(&mut f, "group_id", Json::PosInt(group_id));
    push_field(&mut f, "user_id", Json::PosInt(user_id));
    push_field(&mut f, "operator_id", Json::PosInt(1));
    push_field(&mut f, "message_id", Json::from_i64(message_id as i64));
    assert(json_fields_view(f@) =~= group_recall_spec(
        time,
        self_id,
        group_id,
        user_id,
        message_id,
    )->Object_0);
    Json::Object(f)
}

/// The OneBot notice that user `user_id` deleted a private message.
pub open spec fn friend_recall_spec(time: u64, self_id: u64, user_id: u64, message_id: i32) -> JsonV {
    JsonV::Object(
        event_head(time, self_id, "notice"@) + seq![
            ("notice_type"@, JsonV::Str("friend_recall"@)),
            ("user_id"@, JsonV::PosInt(user_id)),
            ("message_id"@, int_v(message_id as i64)),
        ],
    )
}

/// A deleted private message as a OneBot notice.
pub fn friend_recall_event(time: u64, self_id: u64, user_id: u64, message_id: i32) -> (r: Json)
    ensures
        r@ == friend_recall_spec(time, self_id, user_id, message_id),
{
    let mut f = head(time, self_id, "notice");
    push_field(&mut f, "notice_type", Json::str_of("friend_recall"));
    push_field(&mut f, "user_id", Json::PosInt(user_id));
    push_field(&mut f, "message_id", Json::from_i64(message_id as i64));
    assert(json_fields_view(f@) =~= friend_recall_spec(time, self_id, user_id, message_id)->Object_0);
    Json::Object(f)
}

/// Only a picture (type 2) becomes an image CQ code, of its content as the
/// file and the url; every other type keeps its content as it is, with only
/// KOOK mentions `(met)<id>(met)` rewritten as at CQ codes.
pub proof fn law_only_pictures_become_images(content: Seq<char>, msg_type: i64)
    ensures
        msg_type != 2 ==> onebot_text_spec(content, msg_type) == regex_replaced(
            "\\(met\\)(?P<qq>(\\d+)|(all))\\(met\\)"@,
            content,
            "[CQ:at,qq=$qq]"@,
        ),
        msg_type == 2 ==> onebot_text_spec(content, msg_type) == regex_replaced(
            "\\(met\\)(?P<qq>(\\d+)|(all))\\(met\\)"@,
            "[CQ:image,file="@ + cq_params_encoded(content) + ",url="@ + cq_params_encoded(content)
                + "]"@,
            "[CQ:at,qq=$qq]"@,
        ),
{
}

} // verus!
