//! OneBot 11 API calls: reading a call, deciding what it asks of KOOK, and
//! the replies the bridge gives.
use vstd::prelude::*;
use crate::json::{
    Json, JsonV, ShapeError, json_fields_view, json_seq_view, push_field, str_member, member,
};
use crate::onebot_http_rev::hex_digit;
use crate::text::{
    push_char, dec_nat, dec_int, u64_to_string, i64_to_string, to_string, str_eq, push_str, parse_i32,
    parse_i32_spec,
};
use crate::kook_api::{
    GroupInfo, FriendInfo, GroupMemberInfo, group_info_json, friend_info_json, member_info_json,
};
use crate::cqcode::{
    escape_all, CqError, kook_text, make_kook_text, arr_to_cq_spec, arr_to_cq_str, str_msg_to_arr_spec,
    str_msg_to_arr,
};

verus! {

/// `get_json_str`: the member `key` as text: an integer in decimal, a
/// string as it is, anything else (or nothing) as the empty string.
pub open spec fn json_str_spec(js: JsonV, key: Seq<char>) -> Seq<char> {
    match js.get(key) {
        Some(JsonV::PosInt(n)) => dec_nat(n as nat),
        Some(JsonV::NegInt(i)) => dec_int(i as int),
        Some(JsonV::Str(s)) => s,
        _ => Seq::empty(),
    }
}

/// The member `key` of `js` as text, as OneBot clients send ids either as
/// numbers or as strings.
pub fn get_json_str(js: &Json, key: &str) -> (r: String)
    ensures
        r@ == json_str_spec(js@, key@),
{
    match js.get(key) {
        Some(Json::PosInt(n)) => u64_to_string(*n),
        Some(Json::NegInt(i)) => i64_to_string(*i),
        Some(Json::Str(s)) => s.clone(),
        _ => String::new(),
    }
}

/// A successful reply: `{"status":"ok","retcode":0,"data":..,"echo":..}`.
pub open spec fn ok_reply_spec(data: JsonV, echo: Seq<char>) -> JsonV {
    JsonV::Object(
        seq![
            ("status"@, JsonV::Str("ok"@)),
            ("retcode"@, JsonV::PosInt(0)),
            ("data"@, data),
            ("echo"@, JsonV::Str(echo)),
        ],
    )
}

/// The reply to a call that is not understood:
/// `{"status":"failed","retcode":-1,"data":{},"echo":..}`.
pub open spec fn failed_reply_spec(echo: Seq<char>) -> JsonV {
    JsonV::Object(
        seq![
            ("status"@, JsonV::Str("failed"@)),
            ("retcode"@, JsonV::NegInt(-1i64)),
            ("data"@, JsonV::Object(Seq::empty())),
            ("echo"@, JsonV::Str(echo)),
        ],
    )
}

/// A successful reply carrying `data`.
pub fn ok_reply(data: Json, echo: &str) -> (r: Json)
    ensures
        r@ == ok_reply_spec(data@, echo@),
{
    let ghost dv = data@;
    let mut f: Vec<(String, Json)> = Vec::new();
    push_field(&mut f, "status", Json::str_of("ok"));
    push_field(&mut f, "retcode", Json::PosInt(0));
    push_field(&mut f, "data", data);
    push_field(&mut f, "echo", Json::str_of(echo));
    assert(json_fields_view(f@) =~= ok_reply_spec(dv, echo@)->Object_0);
    Json::Object(f)
}

/// A successful reply with no data (`{}`).
pub fn empty_ok_reply(echo: &str) -> (r: Json)
    ensures
        r@ == ok_reply_spec(JsonV::Object(Seq::empty()), echo@),
{
    ok_reply(Json::empty_object(), echo)
}

/// The reply to a call that is not understood.
pub fn failed_reply(echo: &str) -> (r: Json)
    ensures
        r@ == failed_reply_spec(echo@),
{
    let mut f: Vec<(String, Json)> = Vec::new();
    push_field(&mut f, "status", Json::str_of("failed"));
    push_field(&mut f, "retcode", Json::NegInt(-1i64));
    push_field(&mut f, "data", Json::empty_object());
    push_field(&mut f, "echo", Json::str_of(echo));
    assert(json_fields_view(f@) =~= failed_reply_spec(echo@)->Object_0);
    Json::Object(f)
}

/// The data of a reply to a sent message: `{"message_id": ..}`.
pub open spec fn message_id_data(id: i32) -> JsonV {
    JsonV::Object(seq![("message_id"@, crate::json::int_v(id as i64))])
}

/// The reply to a sent message: its OneBot message number.
pub fn message_id_reply(id: i32, echo: &str) -> (r: Json)
    ensures
        r@ == ok_reply_spec(message_id_data(id), echo@),
{
    let mut f: Vec<(String, Json)> = Vec::new();
    push_field(&mut f, "message_id", Json::from_i64(id as i64));
    assert(json_fields_view(f@) =~= message_id_data(id)->Object_0);
    ok_reply(Json::Object(f), echo)
}

/// Why a OneBot call could not be carried out.
#[derive(Debug, Clone, Copy, PartialEq, Eq, Structural)]
pub enum CallError {
    /// The call has no string `action`.
    Action(ShapeError),
    /// A message call has no `message`.
    NoMessage,
    /// The message is not an array of pieces.
    MessageNotArray,
    /// A message piece lacks what its type needs.
    Piece(ShapeError),
    /// A message piece could not be written as a CQ code.
    Cq(CqError),
    /// `delete_msg`'s `message_id` is not a 32-bit number.
    BadMessageId,
}

/// A KOOK message to send: type 1 (KMarkdown text) or 2 (a picture; before
/// the upload, the file to upload), and its content.
pub type PieceV = (i32, Seq<char>);

pub open spec fn pieces_view(v: Seq<(i32, String)>) -> Seq<PieceV> {
    v.map_values(|p: (i32, String)| (p.0, p.1@))
}

/// Text joins the last message when that one is text; else it starts one.
pub open spec fn push_text(p: Seq<PieceV>, s: Seq<char>) -> Seq<PieceV> {
    if p.len() > 0 && p.last().0 == 1 {
        p.drop_last().push((1, p.last().1 + s))
    } else {
        p.push((1, s))
    }
}

/// The text KOOK reads as a mention of `qq`.
pub open spec fn mention(qq: Seq<char>) -> Seq<char> {
    "(met)"@ + qq + "(met)"@
}

/// How a JSON string escapes one character: `"` and `\` get a backslash,
/// control characters become `\u00XX`.
pub open spec fn json_escape(c: char) -> Seq<char> {
    if c == '"' {
        seq!['\\', '"']
    } else if c == '\\' {
        seq!['\\', '\\']
    } else if (c as u32) < 0x20 {
        seq![
            '\\',
            'u',
            '0',
            '0',
            hex_digit(((c as u32) / 16) as int),
            hex_digit(((c as u32) % 16) as int),
        ]
    } else {
        seq![c]
    }
}

/// `s` as a JSON string literal.
pub open spec fn json_quoted(s: Seq<char>) -> Seq<char> {
    seq!['"'] + escape_all(s, |c: char| json_escape(c)) + seq!['"']
}

/// A KOOK card message (type 10) sharing a piece of music: one card with
/// one audio module of this title, audio address and cover.
pub open spec fn music_card(title: Seq<char>, audio: Seq<char>, cover: Seq<char>) -> Seq<char> {
    "[{\"type\":\"card\",\"theme\":\"secondary\",\"size\":\"lg\",\"modules\":[{\"type\":\"audio\",\"title\":"@
        + json_quoted(title) + ",\"src\":"@ + json_quoted(audio) + ",\"cover\":"@ + json_quoted(cover)
        + "}]}]"@
}

/// A custom music share: a `music` piece whose `data.type` is `custom`.
pub open spec fn is_custom_music(seg: JsonV) -> bool {
    match seg.get("data"@) {
        Some(d) => d.get("type"@) == Some(JsonV::Str("custom"@)),
        None => false,
    }
}

/// The cover of a music share: `data.image` when it is a string, else empty.
pub open spec fn music_cover(d: JsonV) -> Seq<char> {
    match d.get("image"@) {
        Some(JsonV::Str(i)) => i,
        _ => Seq::empty(),
    }
}

/// The OneBot message number a reply piece quotes: `data.id` (a number or
/// its text) read as a 32-bit number.
pub open spec fn reply_target(d: JsonV) -> Option<i32> {
    parse_i32_spec(json_str_spec(d, "id"@))
}

/// The message number that the first reply piece among `segs` quotes.
pub open spec fn quote_spec(segs: Seq<JsonV>) -> Option<i32>
    decreases segs.len(),
{
    if segs.len() == 0 {
        None
    } else {
        let first = segs[0];
        if first.get("type"@) == Some(JsonV::Str("reply"@)) && first.get("data"@) is Some
            && reply_target(first.get("data"@).unwrap()) is Some {
            reply_target(first.get("data"@).unwrap())
        } else {
            quote_spec(segs.drop_first())
        }
    }
}

/// The messages after one more OneBot message piece: text is escaped for
/// KMarkdown, a picture becomes a message of its own, a mention becomes
/// KOOK's mention markup (in a channel; a private chat drops it), a reply
/// adds no message (the messages quote it, see `quote_spec`) but its id
/// must be a number, a custom music share becomes a card message, and any
/// other piece is written as its CQ code and escaped as text.
pub open spec fn piece_step(p: Seq<PieceV>, seg: JsonV, in_group: bool) -> Result<
    Seq<PieceV>,
    CallError,
> {
    match seg.get("type"@) {
        None => Err(CallError::Piece(ShapeError::Missing)),
        Some(t) => if t.is_str("text"@) {
            match member(seg, "data"@) {
                Err(e) => Err(CallError::Piece(e)),
                Ok(d) => match str_member(d, "text"@) {
                    Err(e) => Err(CallError::Piece(e)),
                    Ok(s) => Ok(push_text(p, kook_text(s))),
                },
            }
        } else if t.is_str("image"@) {
            match member(seg, "data"@) {
                Err(e) => Err(CallError::Piece(e)),
                Ok(d) => match str_member(d, "file"@) {
                    Err(e) => Err(CallError::Piece(e)),
                    Ok(f) => Ok(p.push((2, f))),
                },
            }
        } else if t.is_str("at"@) {
            if in_group {
                match member(seg, "data"@) {
                    Err(e) => Err(CallError::Piece(e)),
                    Ok(d) => match str_member(d, "qq"@) {
                        Err(e) => Err(CallError::Piece(e)),
                        Ok(qq) => Ok(push_text(p, mention(qq))),
                    },
                }
            } else {
                Ok(p)
            }
        } else if t.is_str("reply"@) {
            match member(seg, "data"@) {
                Err(e) => Err(CallError::Piece(e)),
                Ok(d) => match reply_target(d) {
                    None => Err(CallError::Piece(ShapeError::BadNumber)),
                    Some(_) => Ok(p),
                },
            }
        } else if t.is_str("music"@) && is_custom_music(seg) {
            match member(seg, "data"@) {
                Err(e) => Err(CallError::Piece(e)),
                Ok(d) => match str_member(d, "audio"@) {
                    Err(e) => Err(CallError::Piece(e)),
                    Ok(audio) => match str_member(d, "title"@) {
                        Err(e) => Err(CallError::Piece(e)),
                        Ok(title) => Ok(p.push((10, music_card(title, audio, music_cover(d))))),
                    },
                },
            }
        } else {
            match arr_to_cq_spec(JsonV::Array(seq![seg])) {
                Err(e) => Err(CallError::Cq(e)),
                Ok(s) => Ok(push_text(p, kook_text(s))),
            }
        },
    }
}

/// The KOOK messages for the OneBot message pieces `segs`, in order; the
/// first piece that cannot be read decides the error.
pub open spec fn pieces_spec(segs: Seq<JsonV>, in_group: bool) -> Result<Seq<PieceV>, CallError>
    decreases segs.len(),
{
    if segs.len() == 0 {
        Ok(Seq::empty())
    } else {
        match pieces_spec(segs.drop_last(), in_group) {
            Err(e) => Err(e),
            Ok(p) => piece_step(p, segs.last(), in_group),
        }
    }
}

fn add_text(p: &mut Vec<(i32, String)>, s: String)
    ensures
        pieces_view(final(p)@) == push_text(pieces_view(old(p)@), s@),
{
    let n = p.len();
    if n > 0 && p[n - 1].0 == 1 {
        let ghost before = p@;
        let last = p.pop();
        match last {
            Some((_, mut t)) => {
                let ghost t0 = t@;
                push_str(&mut t, s.as_str());
                p.push((1, t));
                assert(pieces_view(before).last() == (1i32, t0));
                assert(pieces_view(p@) =~= push_text(pieces_view(before), s@));
            },
            None => {},
        }
    } else {
        let ghost before = p@;
        p.push((1, s));
        assert(pieces_view(p@) =~= push_text(pieces_view(before), s@));
    }
}

fn custom_music(seg: &Json) -> (r: bool)
    ensures
        r == is_custom_music(seg@),
{
    match seg.get("data") {
        Some(d) => match d.get("type") {
            Some(t) => t.eq_str("custom"),
            None => false,
        },
        None => false,
    }
}

fn push_json_escape(out: &mut String, c: char)
    ensures
        final(out)@ == old(out)@ + json_escape(c),
{
    let ghost start = out@;
    if c == '"' {
        push_char(out, '\\');
        push_char(out, '"');
        assert(out@ =~= start + json_escape(c));
    } else if c == '\\' {
        push_char(out, '\\');
        push_char(out, '\\');
        assert(out@ =~= start + json_escape(c));
    } else if (c as u32) < 0x20 {
        let v = c as u32;
        push_char(out, '\\');
        push_char(out, 'u');
        push_char(out, '0');
        push_char(out, '0');
        push_char(out, hex_char(v / 16));
        push_char(out, hex_char(v % 16));
        assert(out@ =~= start + json_escape(c));
    } else {
        push_char(out, c);
        assert(out@ =~= start + json_escape(c));
    }
}

fn hex_char(d: u32) -> (c: char)
    requires
        d < 16,
    ensures
        c == hex_digit(d as int),
{
    if d < 10 {
        ((d as u8) + 48) as char
    } else {
        ((d as u8) + 87) as char
    }
}

fn push_json_quoted(out: &mut String, s: &str)
    ensures
        final(out)@ == old(out)@ + json_quoted(s@),
{
    let ghost start = out@;
    push_char(out, '"');
    for ch in it: s.chars()
        invariant
            it.seq() == s@,
            out@ == start + seq!['"'] + escape_all(
                it.seq().take(it.index() as int),
                |c: char| json_escape(c),
            ),
    {
        proof {
            assert(it.seq().take(it.index() + 1).drop_last() =~= it.seq().take(it.index() as int));
        }
        push_json_escape(out, ch);
        proof {
            let pre = it.seq().take(it.index() as int);
            assert(out@ =~= start + seq!['"'] + (escape_all(pre, |c: char| json_escape(c))
                + json_escape(ch)));
        }
    }
    assert(s@.take(s@.len() as int) =~= s@);
    push_char(out, '"');
    assert(out@ =~= old(out)@ + json_quoted(s@));
}

/// The card text of a custom music share.
pub fn music_card_text(title: &str, audio: &str, cover: &str) -> (r: String)
    ensures
        r@ == music_card(title@, audio@, cover@),
{
    let mut s = to_string(
        "[{\"type\":\"card\",\"theme\":\"secondary\",\"size\":\"lg\",\"modules\":[{\"type\":\"audio\",\"title\":",
    );
    push_json_quoted(&mut s, title);
    push_str(&mut s, ",\"src\":");
    push_json_quoted(&mut s, audio);
    push_str(&mut s, ",\"cover\":");
    push_json_quoted(&mut s, cover);
    push_str(&mut s, "}]}]");
    s
}

fn data_str(seg: &Json, k: &str) -> (r: Result<String, CallError>)
    ensures
        match r {
            Ok(s) => match member(seg@, "data"@) {
                Ok(d) => str_member(d, k@) == Ok::<Seq<char>, ShapeError>(s@),
                Err(_) => false,
            },
            Err(e) => match member(seg@, "data"@) {
                Ok(d) => match str_member(d, k@) {
                    Ok(_) => false,
                    Err(x) => e == CallError::Piece(x),
                },
                Err(x) => e == CallError::Piece(x),
            },
        },
{
    match seg.member("data") {
        Err(e) => Err(CallError::Piece(e)),
        Ok(d) => match d.str_member(k) {
            Err(e) => Err(CallError::Piece(e)),
            Ok(s) => Ok(s),
        },
    }
}

fn add_piece(p: &mut Vec<(i32, String)>, seg: &Json, in_group: bool) -> (r: Result<(), CallError>)
    ensures
        match r {
            Ok(_) => piece_step(pieces_view(old(p)@), seg@, in_group) == Ok::<Seq<PieceV>, CallError>(
                pieces_view(final(p)@),
            ),
            Err(e) => piece_step(pieces_view(old(p)@), seg@, in_group) == Err::<Seq<PieceV>, CallError>(
                e,
            ),
        },
{
    let t = match seg.get("type") {
        Some(t) => t,
        None => return Err(CallError::Piece(ShapeError::Missing)),
    };
    if t.eq_str("text") {
        let s = match data_str(seg, "text") {
            Ok(s) => s,
            Err(e) => return Err(e),
        };
        add_text(p, make_kook_text(s.as_str()));
        Ok(())
    } else if t.eq_str("image") {
        let f = match data_str(seg, "file") {
            Ok(s) => s,
            Err(e) => return Err(e),
        };
        let ghost before = p@;
        p.push((2, f));
        assert(pieces_view(p@) =~= pieces_view(before).push((2i32, f@)));
        Ok(())
    } else if t.eq_str("at") {
        if in_group {
            let qq = match data_str(seg, "qq") {
                Ok(s) => s,
                Err(e) => return Err(e),
            };
            let mut m = to_string("(met)");
            push_str(&mut m, qq.as_str());
            push_str(&mut m, "(met)");
            add_text(p, m);
        }
        Ok(())
    } else if t.eq_str("reply") {
        let d = match seg.member("data") {
            Ok(d) => d,
            Err(e) => return Err(CallError::Piece(e)),
        };
        let id = get_json_str(d, "id");
        match parse_i32(id.as_str()) {
            None => Err(CallError::Piece(ShapeError::BadNumber)),
            Some(_) => Ok(()),
        }
    } else if t.eq_str("music") && custom_music(seg) {
        let audio = match data_str(seg, "audio") {
            Ok(s) => s,
            Err(e) => return Err(e),
        };
        let title = match data_str(seg, "title") {
            Ok(s) => s,
            Err(e) => return Err(e),
        };
        let d = match seg.member("data") {
            Ok(d) => d,
            Err(e) => return Err(CallError::Piece(e)),
        };
        let cover = match d.get("image") {
            Some(Json::Str(i)) => i.clone(),
            _ => String::new(),
        };
        let card = music_card_text(title.as_str(), audio.as_str(), cover.as_str());
        let ghost before = p@;
        p.push((10, card));
        assert(pieces_view(p@) =~= pieces_view(before).push(
            (10i32, music_card(title@, audio@, music_cover(member(seg@, "data"@)->Ok_0))),
        ));
        Ok(())
    } else {
        let c = seg.deep_clone();
        let v = vec![c];
        assert(json_seq_view(v@) =~= seq![seg@]) by {
            crate::json::lemma_seq_view(v@);
        }
        let one = Json::Array(v);
        match arr_to_cq_str(&one) {
            Err(e) => Err(CallError::Cq(e)),
            Ok(s) => {
                add_text(p, make_kook_text(s.as_str()));
                Ok(())
            },
        }
    }
}

proof fn lemma_pieces_error_stays(s: Seq<JsonV>, k: int, in_group: bool)
    requires
        0 <= k <= s.len(),
        pieces_spec(s.take(k), in_group) is Err,
    ensures
        pieces_spec(s, in_group) == pieces_spec(s.take(k), in_group),
    decreases s.len() - k,
{
    if k < s.len() {
        let t = s.take(k + 1);
        assert(t.drop_last() =~= s.take(k));
        lemma_pieces_error_stays(s, k + 1, in_group);
    } else {
        assert(s.take(k) =~= s);
    }
}

fn reply_target_of(seg: &Json) -> (r: Option<i32>)
    ensures
        r == (if seg@.get("type"@) == Some(JsonV::Str("reply"@)) && seg@.get("data"@) is Some {
            reply_target(seg@.get("data"@).unwrap())
        } else {
            None
        }),
{
    let t = match seg.get("type") {
        Some(t) => t,
        None => return None,
    };
    if !t.eq_str("reply") {
        return None;
    }
    match seg.get("data") {
        Some(d) => {
            let id = get_json_str(d, "id");
            parse_i32(id.as_str())
        },
        None => None,
    }
}

/// The OneBot message number that the messages of a call quote: that of
/// the first reply piece among `segs`, if any.
pub fn message_quote(segs: &Vec<Json>) -> (r: Option<i32>)
    ensures
        r == quote_spec(json_seq_view(segs@)),
{
    let ghost sv = json_seq_view(segs@);
    proof {
        crate::json::lemma_seq_view(segs@);
        assert(sv.skip(0) =~= sv);
    }
    let mut i: usize = 0;
    while i < segs.len()
        invariant
            i <= segs@.len(),
            sv == json_seq_view(segs@),
            sv.len() == segs@.len(),
            forall|j: int| 0 <= j < segs@.len() ==> #[trigger] sv[j] == segs@[j]@,
            quote_spec(sv) == quote_spec(sv.skip(i as int)),
        decreases segs@.len() - i,
    {
        let ghost rest = sv.skip(i as int);
        assert(rest[0] == sv[i as int]);
        assert(rest.drop_first() =~= sv.skip(i + 1));
        match reply_target_of(&segs[i]) {
            Some(n) => {
                return Some(n);
            },
            None => {},
        }
        i = i + 1;
    }
    assert(sv.skip(i as int).len() == 0);
    None
}

/// The KOOK messages that the OneBot message pieces `segs` become, for a
/// channel (`in_group`) or a private chat.
pub fn plan_pieces(segs: &Vec<Json>, in_group: bool) -> (r: Result<Vec<(i32, String)>, CallError>)
    ensures
        match r {
            Ok(p) => pieces_spec(json_seq_view(segs@), in_group) == Ok::<Seq<PieceV>, CallError>(
                pieces_view(p@),
            ),
            Err(e) => pieces_spec(json_seq_view(segs@), in_group) == Err::<Seq<PieceV>, CallError>(
                e,
            ),
        },
{
    let ghost sv = json_seq_view(segs@);
    proof {
        crate::json::lemma_seq_view(segs@);
    }
    let mut p: Vec<(i32, String)> = Vec::new();
    let mut i: usize = 0;
    assert(sv.take(0) =~= Seq::<JsonV>::empty());
    assert(pieces_view(p@) =~= Seq::<PieceV>::empty());
    while i < segs.len()
        invariant
            i <= segs@.len(),
            sv == json_seq_view(segs@),
            sv.len() == segs@.len(),
            forall|j: int| 0 <= j < segs@.len() ==> #[trigger] sv[j] == segs@[j]@,
            pieces_spec(sv.take(i as int), in_group) == Ok::<Seq<PieceV>, CallError>(
                pieces_view(p@),
            ),
        decreases segs@.len() - i,
    {
        assert(sv.take(i as int + 1).drop_last() =~= sv.take(i as int));
        assert(sv.take(i as int + 1).last() == sv[i as int]);
        match add_piece(&mut p, &segs[i], in_group) {
            Err(e) => {
                proof {
                    lemma_pieces_error_stays(sv, i as int + 1, in_group);
                }
                return Err(e);
            },
            Ok(_) => {},
        }
        i = i + 1;
    }
    assert(sv.take(i as int) =~= sv);
    Ok(p)
}

/// The pieces of the `message` parameter: an array as it is, a string read
/// as CQ codes.
pub open spec fn message_spec(params: JsonV) -> Result<Seq<JsonV>, CallError> {
    match params.get("message"@) {
        None => Err(CallError::NoMessage),
        Some(m) => {
            let arr = if m is Str {
                match str_msg_to_arr_spec(m) {
                    Err(e) => Err(CallError::Cq(e)),
                    Ok(a) => Ok(a),
                }
            } else {
                Ok(m)
            };
            match arr {
                Err(e) => Err(e),
                Ok(a) => match a.as_array() {
                    None => Err(CallError::MessageNotArray),
                    Some(v) => Ok(v),
                },
            }
        },
    }
}

fn message_json(params: &Json) -> (r: Result<Json, CallError>)
    ensures
        match r {
            Ok(a) => match message_spec(params@) {
                Ok(v) => a@ == JsonV::Array(v),
                Err(_) => false,
            },
            Err(e) => message_spec(params@) == Err::<Seq<JsonV>, CallError>(e),
        },
{
    let m = match params.get("message") {
        Some(m) => m,
        None => return Err(CallError::NoMessage),
    };
    let a = match m {
        Json::Str(_) => match str_msg_to_arr(m) {
            Err(e) => return Err(CallError::Cq(e)),
            Ok(a) => a,
        },
        _ => m.deep_clone(),
    };
    match a {
        Json::Array(_) => Ok(a),
        _ => Err(CallError::MessageNotArray),
    }
}

/// What a OneBot call asks of KOOK, as values.
pub enum RequestV {
    Reply(JsonV),
    SendGroupMsg(Seq<char>, Seq<PieceV>, Option<i32>),
    SendPrivateMsg(Seq<char>, Seq<PieceV>, Option<i32>),
    GetLoginInfo,
    GetStrangerInfo(Seq<char>),
    GetGroupInfo(Seq<char>),
    GetGroupList,
    GetGroupMemberInfo(Seq<char>, Seq<char>),
    GetGroupMemberList(Seq<char>),
    SetGroupKick(Seq<char>, Seq<char>),
    DeleteMsg(i32),
    SetGroupLeave(Seq<char>),
    SetGroupName(Seq<char>, Seq<char>),
    SetGroupCard(Seq<char>, Seq<char>, Seq<char>),
    GetFriendList,
    Unsupported,
}

/// What a OneBot call asks of KOOK: a reply that needs nothing of KOOK, or
/// the KOOK calls to make, with the ids and texts they take.
pub enum OnebotRequest {
    /// Reply with this at once.
    Reply(Json),
    /// Send these messages to a channel, quoting the message of this
    /// OneBot number if there is one.
    SendGroupMsg(String, Vec<(i32, String)>, Option<i32>),
    /// Send these messages to a user, quoting as for a channel.
    SendPrivateMsg(String, Vec<(i32, String)>, Option<i32>),
    GetLoginInfo,
    /// Look up a user.
    GetStrangerInfo(String),
    /// Look up a channel.
    GetGroupInfo(String),
    GetGroupList,
    /// Look up a member of a channel's guild: channel, user.
    GetGroupMemberInfo(String, String),
    /// List the members of a channel's guild.
    GetGroupMemberList(String),
    /// Kick a user from a channel's guild: channel, user.
    SetGroupKick(String, String),
    /// Delete the KOOK messages behind a OneBot message number.
    DeleteMsg(i32),
    /// Leave a channel's guild.
    SetGroupLeave(String),
    /// Rename a channel: channel, name.
    SetGroupName(String, String),
    /// Set a member's nickname: channel, user, nickname.
    SetGroupCard(String, String, String),
    GetFriendList,
    /// An action the bridge does not know: answered with the failed reply
    /// (and, over HTTP, status 404).
    Unsupported,
}

impl View for OnebotRequest {
    type V = RequestV;

    open spec fn view(&self) -> RequestV {
        match self {
            OnebotRequest::Reply(j) => RequestV::Reply(j@),
            OnebotRequest::SendGroupMsg(g, p, q) => RequestV::SendGroupMsg(g@, pieces_view(p@), *q),
            OnebotRequest::SendPrivateMsg(u, p, q) => RequestV::SendPrivateMsg(
                u@,
                pieces_view(p@),
                *q,
            ),
            OnebotRequest::GetLoginInfo => RequestV::GetLoginInfo,
            OnebotRequest::GetStrangerInfo(u) => RequestV::GetStrangerInfo(u@),
            OnebotRequest::GetGroupInfo(g) => RequestV::GetGroupInfo(g@),
            OnebotRequest::GetGroupList => RequestV::GetGroupList,
            OnebotRequest::GetGroupMemberInfo(g, u) => RequestV::GetGroupMemberInfo(g@, u@),
            OnebotRequest::GetGroupMemberList(g) => RequestV::GetGroupMemberList(g@),
            OnebotRequest::SetGroupKick(g, u) => RequestV::SetGroupKick(g@, u@),
            OnebotRequest::DeleteMsg(n) => RequestV::DeleteMsg(*n),
            OnebotRequest::SetGroupLeave(g) => RequestV::SetGroupLeave(g@),
            OnebotRequest::SetGroupName(g, n) => RequestV::SetGroupName(g@, n@),
            OnebotRequest::SetGroupCard(g, u, c) => RequestV::SetGroupCard(g@, u@, c@),
            OnebotRequest::GetFriendList => RequestV::GetFriendList,
            OnebotRequest::Unsupported => RequestV::Unsupported,
        }
    }
}

/// A message call: to a channel (`group_id`) or to a user (`user_id`).
pub open spec fn send_spec(params: JsonV, in_group: bool) -> Result<RequestV, CallError> {
    match message_spec(params) {
        Err(e) => Err(e),
        Ok(segs) => match pieces_spec(segs, in_group) {
            Err(e) => Err(e),
            Ok(p) => Ok(
                if in_group {
                    RequestV::SendGroupMsg(json_str_spec(params, "group_id"@), p, quote_spec(segs))
                } else {
                    RequestV::SendPrivateMsg(json_str_spec(params, "user_id"@), p, quote_spec(segs))
                },
            ),
        },
    }
}

/// `{"k": b}`.
pub open spec fn flag_data(k: Seq<char>, b: bool) -> JsonV {
    JsonV::Object(seq![(k, JsonV::Bool(b))])
}

pub open spec fn status_data() -> JsonV {
    JsonV::Object(seq![("online"@, JsonV::Bool(true)), ("good"@, JsonV::Bool(true))])
}

pub open spec fn version_data() -> JsonV {
    JsonV::Object(
        seq![
            ("app_name"@, JsonV::Str("kook-onebot"@)),
            ("app_version"@, JsonV::Str("0.0.4"@)),
            ("protocol_version"@, JsonV::Str("v11"@)),
        ],
    )
}

/// What the call `action` with `params` asks. `send_msg` goes to a channel
/// when it names a non-empty `group_id`, else to a user. Calls that KOOK
/// need not answer are answered at once; an unknown action gets the
/// failed reply (`Unsupported`).
pub open spec fn request_spec(action: Seq<char>, params: JsonV, echo: Seq<char>) -> Result<
    RequestV,
    CallError,
> {
    if action == "send_group_msg"@ {
        send_spec(params, true)
    } else if action == "send_private_msg"@ {
        send_spec(params, false)
    } else if action == "send_msg"@ {
        send_spec(params, json_str_spec(params, "group_id"@) != Seq::<char>::empty())
    } else if action == "get_login_info"@ {
        Ok(RequestV::GetLoginInfo)
    } else if action == "get_stranger_info"@ {
        Ok(RequestV::GetStrangerInfo(json_str_spec(params, "user_id"@)))
    } else if action == "get_group_info"@ {
        Ok(RequestV::GetGroupInfo(json_str_spec(params, "group_id"@)))
    } else if action == "get_group_list"@ {
        Ok(RequestV::GetGroupList)
    } else if action == "get_group_member_info"@ {
        Ok(
            RequestV::GetGroupMemberInfo(
                json_str_spec(params, "group_id"@),
                json_str_spec(params, "user_id"@),
            ),
        )
    } else if action == "get_group_member_list"@ {
        Ok(RequestV::GetGroupMemberList(json_str_spec(params, "group_id"@)))
    } else if action == "set_group_kick"@ {
        Ok(
            RequestV::SetGroupKick(
                json_str_spec(params, "group_id"@),
                json_str_spec(params, "user_id"@),
            ),
        )
    } else if action == "delete_msg"@ {
        match parse_i32_spec(json_str_spec(params, "message_id"@)) {
            None => Err(CallError::BadMessageId),
            Some(n) => Ok(RequestV::DeleteMsg(n)),
        }
    } else if action == "set_group_leave"@ {
        Ok(RequestV::SetGroupLeave(json_str_spec(params, "group_id"@)))
    } else if action == "set_group_name"@ {
        Ok(
            RequestV::SetGroupName(
                json_str_spec(params, "group_id"@),
                json_str_spec(params, "group_name"@),
            ),
        )
    } else if action == "set_group_card"@ {
        Ok(
            RequestV::SetGroupCard(
                json_str_spec(params, "group_id"@),
                json_str_spec(params, "user_id"@),
                json_str_spec(params, "card"@),
            ),
        )
    } else if action == "get_friend_list"@ {
        Ok(RequestV::GetFriendList)
    } else if action == "can_send_image"@ {
        Ok(RequestV::Reply(ok_reply_spec(flag_data("yes"@, true), echo)))
    } else if action == "can_send_record"@ {
        Ok(RequestV::Reply(ok_reply_spec(flag_data("yes"@, false), echo)))
    } else if action == "get_status"@ {
        Ok(RequestV::Reply(ok_reply_spec(status_data(), echo)))
    } else if action == "get_version_info"@ {
        Ok(RequestV::Reply(ok_reply_spec(version_data(), echo)))
    } else {
        Ok(RequestV::Unsupported)
    }
}

fn plan_send(params: &Json, in_group: bool) -> (r: Result<OnebotRequest, CallError>)
    ensures
        match r {
            Ok(q) => send_spec(params@, in_group) == Ok::<RequestV, CallError>(q@),
            Err(e) => send_spec(params@, in_group) == Err::<RequestV, CallError>(e),
        },
{
    let target = if in_group {
        get_json_str(params, "group_id")
    } else {
        get_json_str(params, "user_id")
    };
    let a = match message_json(params) {
        Ok(a) => a,
        Err(e) => return Err(e),
    };
    let segs = match a.as_array() {
        Some(v) => v,
        None => return Err(CallError::MessageNotArray),
    };
    match plan_pieces(segs, in_group) {
        Err(e) => Err(e),
        Ok(p) => {
            let q = message_quote(segs);
            if in_group {
                Ok(OnebotRequest::SendGroupMsg(target, p, q))
            } else {
                Ok(OnebotRequest::SendPrivateMsg(target, p, q))
            }
        },
    }
}

fn flag_json(k: &str, b: bool) -> (r: Json)
    ensures
        r@ == flag_data(k@, b),
{
    let mut f: Vec<(String, Json)> = Vec::new();
    push_field(&mut f, k, Json::Bool(b));
    assert(json_fields_view(f@) =~= flag_data(k@, b)->Object_0);
    Json::Object(f)
}

fn status_json() -> (r: Json)
    ensures
        r@ == status_data(),
{
    let mut f: Vec<(String, Json)> = Vec::new();
    push_field(&mut f, "online", Json::Bool(true));
    push_field(&mut f, "good", Json::Bool(true));
    assert(json_fields_view(f@) =~= status_data()->Object_0);
    Json::Object(f)
}

fn version_json() -> (r: Json)
    ensures
        r@ == version_data(),
{
    let mut f: Vec<(String, Json)> = Vec::new();
    push_field(&mut f, "app_name", Json::str_of("kook-onebot"));
    push_field(&mut f, "app_version", Json::str_of("0.0.4"));
    push_field(&mut f, "protocol_version", Json::str_of("v11"));
    assert(json_fields_view(f@) =~= version_data()->Object_0);
    Json::Object(f)
}

/// What the call `action` with `params` asks of KOOK.
pub fn plan_request(action: &str, params: &Json, echo: &str) -> (r: Result<OnebotRequest, CallError>)
    ensures
        match r {
            Ok(q) => request_spec(action@, params@, echo@) == Ok::<RequestV, CallError>(q@),
            Err(e) => request_spec(action@, params@, echo@) == Err::<RequestV, CallError>(e),
        },
{
    if str_eq(action, "send_group_msg") {
        plan_send(params, true)
    } else if str_eq(action, "send_private_msg") {
        plan_send(params, false)
    } else if str_eq(action, "send_msg") {
        let g = get_json_str(params, "group_id");
        let in_group = !str_eq(g.as_str(), "");
        assert(in_group == (g@ != Seq::<char>::empty())) by {
            reveal_strlit("");
            assert(""@ =~= Seq::<char>::empty());
        }
        plan_send(params, in_group)
    } else if str_eq(action, "get_login_info") {
        Ok(OnebotRequest::GetLoginInfo)
    } else if str_eq(action, "get_stranger_info") {
        Ok(OnebotRequest::GetStrangerInfo(get_json_str(params, "user_id")))
    } else if str_eq(action, "get_group_info") {
        Ok(OnebotRequest::GetGroupInfo(get_json_str(params, "group_id")))
    } else if str_eq(action, "get_group_list") {
        Ok(OnebotRequest::GetGroupList)
    } else if str_eq(action, "get_group_member_info") {
        Ok(
            OnebotRequest::GetGroupMemberInfo(
                get_json_str(params, "group_id"),
                get_json_str(params, "user_id"),
            ),
        )
    } else if str_eq(action, "get_group_member_list") {
        Ok(OnebotRequest::GetGroupMemberList(get_json_str(params, "group_id")))
    } else if str_eq(action, "set_group_kick") {
        Ok(
            OnebotRequest::SetGroupKick(
                get_json_str(params, "group_id"),
                get_json_str(params, "user_id"),
            ),
        )
    } else if str_eq(action, "delete_msg") {
        let s = get_json_str(params, "message_id");
        match parse_i32(s.as_str()) {
            None => Err(CallError::BadMessageId),
            Some(n) => Ok(OnebotRequest::DeleteMsg(n)),
        }
    } else if str_eq(action, "set_group_leave") {
        Ok(OnebotRequest::SetGroupLeave(get_json_str(params, "group_id")))
    } else if str_eq(action, "set_group_name") {
        Ok(
            OnebotRequest::SetGroupName(
                get_json_str(params, "group_id"),
                get_json_str(params, "group_name"),
            ),
        )
    } else if str_eq(action, "set_group_card") {
        Ok(
            OnebotRequest::SetGroupCard(
                get_json_str(params, "group_id"),
                get_json_str(params, "user_id"),
                get_json_str(params, "card"),
            ),
        )
    } else if str_eq(action, "get_friend_list") {
        Ok(OnebotRequest::GetFriendList)
    } else if str_eq(action, "can_send_image") {
        Ok(OnebotRequest::Reply(ok_reply(flag_json("yes", true), echo)))
    } else if str_eq(action, "can_send_record") {
        Ok(OnebotRequest::Reply(ok_reply(flag_json("yes", false), echo)))
    } else if str_eq(action, "get_status") {
        Ok(OnebotRequest::Reply(ok_reply(status_json(), echo)))
    } else if str_eq(action, "get_version_info") {
        Ok(OnebotRequest::Reply(ok_reply(version_json(), echo)))
    } else {
        Ok(OnebotRequest::Unsupported)
    }
}

/// A OneBot call: its `action` (a string), its `params` (`{}` when there
/// are none) and its `echo` as text.
pub open spec fn call_spec(js: JsonV) -> Result<(RequestV, Seq<char>), CallError> {
    match str_member(js, "action"@) {
        Err(e) => Err(CallError::Action(e)),
        Ok(action) => {
            let params = match js.get("params"@) {
                Some(p) => p,
                None => JsonV::Object(Seq::empty()),
            };
            let echo = json_str_spec(js, "echo"@);
            match request_spec(action, params, echo) {
                Err(e) => Err(e),
                Ok(q) => Ok((q, echo)),
            }
        },
    }
}

/// What the OneBot call `js` asks of KOOK, and the `echo` to answer with.
pub fn plan_call(js: &Json) -> (r: Result<(OnebotRequest, String), CallError>)
    ensures
        match r {
            Ok((q, echo)) => call_spec(js@) == Ok::<(RequestV, Seq<char>), CallError>((q@, echo@)),
            Err(e) => call_spec(js@) == Err::<(RequestV, Seq<char>), CallError>(e),
        },
{
    let action = match js.str_member("action") {
        Ok(a) => a,
        Err(e) => return Err(CallError::Action(e)),
    };
    let echo = get_json_str(js, "echo");
    let q = match js.get("params") {
        Some(p) => plan_request(action.as_str(), p, echo.as_str()),
        None => {
            let def = Json::empty_object();
            plan_request(action.as_str(), &def, echo.as_str())
        },
    };
    match q {
        Ok(q) => Ok((q, echo)),
        Err(e) => Err(e),
    }
}

/// A list of groups as a reply's data.
pub fn group_list_json(v: &Vec<GroupInfo>) -> (r: Json)
    ensures
        r@ == JsonV::Array(v@.map_values(|g: GroupInfo| group_info_json(g))),
{
    let mut out: Vec<Json> = Vec::new();
    let mut i: usize = 0;
    while i < v.len()
        invariant
            i <= v@.len(),
            out@.len() == i,
            forall|j: int| 0 <= j < i ==> (#[trigger] out@[j])@ == group_info_json(v@[j]),
        decreases v@.len() - i,
    {
        out.push(v[i].to_json());
        i = i + 1;
    }
    proof {
        crate::json::lemma_seq_view(out@);
    }
    assert(json_seq_view(out@) =~= v@.map_values(|g: GroupInfo| group_info_json(g)));
    Json::Array(out)
}

/// A list of group members as a reply's data.
pub fn member_list_json(v: &Vec<GroupMemberInfo>) -> (r: Json)
    ensures
        r@ == JsonV::Array(v@.map_values(|m: GroupMemberInfo| member_info_json(m))),
{
    let mut out: Vec<Json> = Vec::new();
    let mut i: usize = 0;
    while i < v.len()
        invariant
            i <= v@.len(),
            out@.len() == i,
            forall|j: int| 0 <= j < i ==> (#[trigger] out@[j])@ == member_info_json(v@[j]),
        decreases v@.len() - i,
    {
        out.push(v[i].to_json());
        i = i + 1;
    }
    proof {
        crate::json::lemma_seq_view(out@);
    }
    assert(json_seq_view(out@) =~= v@.map_values(|m: GroupMemberInfo| member_info_json(m)));
    Json::Array(out)
}

/// A list of friends as a reply's data.
pub fn friend_list_json(v: &Vec<FriendInfo>) -> (r: Json)
    ensures
        r@ == JsonV::Array(v@.map_values(|f: FriendInfo| friend_info_json(f))),
{
    let mut out: Vec<Json> = Vec::new();
    let mut i: usize = 0;
    while i < v.len()
        invariant
            i <= v@.len(),
            out@.len() == i,
            forall|j: int| 0 <= j < i ==> (#[trigger] out@[j])@ == friend_info_json(v@[j]),
        decreases v@.len() - i,
    {
        out.push(v[i].to_json());
        i = i + 1;
    }
    proof {
        crate::json::lemma_seq_view(out@);
    }
    assert(json_seq_view(out@) =~= v@.map_values(|f: FriendInfo| friend_info_json(f)));
    Json::Array(out)
}

/// Messages to send are well formed: each is text (1), a picture (2) or a
/// card (10), and no two text messages follow each other.
pub open spec fn pieces_well_formed(p: Seq<PieceV>) -> bool {
    &&& forall|i: int| 0 <= i < p.len() ==> (#[trigger] p[i]).0 == 1 || p[i].0 == 2 || p[i].0 == 10
    &&& forall|i: int| 0 <= i < p.len() - 1 ==> !((#[trigger] p[i]).0 == 1 && p[i + 1].0 == 1)
}

proof fn lemma_push_text_well_formed(p: Seq<PieceV>, s: Seq<char>)
    requires
        pieces_well_formed(p),
    ensures
        pieces_well_formed(push_text(p, s)),
{
    let q = push_text(p, s);
    if p.len() > 0 && p.last().0 == 1 {
        assert forall|i: int| 0 <= i < q.len() - 1 implies !((#[trigger] q[i]).0 == 1 && q[i + 1].0
            == 1) by {
            assert(q[i] == p[i]);
            if i + 1 < q.len() - 1 {
                assert(q[i + 1] == p[i + 1]);
            } else {
                assert(p[i + 1] == p.last());
            }
        }
    } else {
        assert forall|i: int| 0 <= i < q.len() - 1 implies !((#[trigger] q[i]).0 == 1 && q[i + 1].0
            == 1) by {
            assert(q[i] == p[i]);
            if i + 1 < p.len() {
                assert(q[i + 1] == p[i + 1]);
            } else {
                assert(p[i] == p.last());
            }
        }
    }
    assert forall|i: int| 0 <= i < q.len() implies (#[trigger] q[i]).0 == 1 || q[i].0 == 2 || q[i].0
        == 10 by {
        if i < p.len() && !(p.len() > 0 && p.last().0 == 1 && i == p.len() - 1) {
            assert(q[i] == p[i]);
        }
    }
}

proof fn lemma_push_other_well_formed(p: Seq<PieceV>, tp: i32, c: Seq<char>)
    requires
        pieces_well_formed(p),
        tp == 2 || tp == 10,
    ensures
        pieces_well_formed(p.push((tp, c))),
{
    let q = p.push((tp, c));
    assert forall|i: int| 0 <= i < q.len() - 1 implies !((#[trigger] q[i]).0 == 1 && q[i + 1].0 == 1) by {
        assert(q[i] == p[i]);
        if i + 1 < p.len() {
            assert(q[i + 1] == p[i + 1]);
        }
    }
    assert forall|i: int| 0 <= i < q.len() implies (#[trigger] q[i]).0 == 1 || q[i].0 == 2 || q[i].0
        == 10 by {
        if i < p.len() {
            assert(q[i] == p[i]);
        }
    }
}

proof fn lemma_piece_step_well_formed(p: Seq<PieceV>, seg: JsonV, in_group: bool)
    requires
        pieces_well_formed(p),
    ensures
        piece_step(p, seg, in_group) matches Ok(q) ==> pieces_well_formed(q),
{
    match seg.get("type"@) {
        None => {},
        Some(t) => if t.is_str("text"@) {
            if let Ok(d) = member(seg, "data"@) {
                if let Ok(x) = str_member(d, "text"@) {
                    lemma_push_text_well_formed(p, kook_text(x));
                }
            }
        } else if t.is_str("image"@) {
            if let Ok(d) = member(seg, "data"@) {
                if let Ok(f) = str_member(d, "file"@) {
                    lemma_push_other_well_formed(p, 2, f);
                }
            }
        } else if t.is_str("at"@) {
            if in_group {
                if let Ok(d) = member(seg, "data"@) {
                    if let Ok(qq) = str_member(d, "qq"@) {
                        lemma_push_text_well_formed(p, mention(qq));
                    }
                }
            }
        } else if t.is_str("reply"@) {
        } else if t.is_str("music"@) && is_custom_music(seg) {
            if let Ok(d) = member(seg, "data"@) {
                if let Ok(audio) = str_member(d, "audio"@) {
                    if let Ok(title) = str_member(d, "title"@) {
                        lemma_push_other_well_formed(p, 10, music_card(title, audio, music_cover(d)));
                    }
                }
            }
        } else {
            if let Ok(x) = arr_to_cq_spec(JsonV::Array(seq![seg])) {
                lemma_push_text_well_formed(p, kook_text(x));
            }
        },
    }
}

/// What a message call sends is well formed, whatever the pieces: every
/// message is text, a picture or a card, and text that follows text joins it, so no
/// two text messages are sent one after the other.
pub proof fn law_pieces_well_formed(segs: Seq<JsonV>, in_group: bool)
    ensures
        pieces_spec(segs, in_group) matches Ok(p) ==> pieces_well_formed(p),
    decreases segs.len(),
{
    if segs.len() > 0 {
        law_pieces_well_formed(segs.drop_last(), in_group);
        if let Ok(p) = pieces_spec(segs.drop_last(), in_group) {
            lemma_piece_step_well_formed(p, segs.last(), in_group);
        }
    }
}

/// `send_msg` is `send_group_msg` when the call names a non-empty
/// `group_id`, whatever its `user_id`, and `send_private_msg` otherwise; a
/// group message goes to the channel `group_id`, a private message to the
/// user `user_id`.
pub proof fn law_send_msg_target(params: JsonV, echo: Seq<char>)
    ensures
        json_str_spec(params, "group_id"@) != Seq::<char>::empty() ==> request_spec(
            "send_msg"@,
            params,
            echo,
        ) == request_spec("send_group_msg"@, params, echo),
        json_str_spec(params, "group_id"@) == Seq::<char>::empty() ==> request_spec(
            "send_msg"@,
            params,
            echo,
        ) == request_spec("send_private_msg"@, params, echo),
        request_spec("send_group_msg"@, params, echo) matches Ok(q) ==> (q matches RequestV::SendGroupMsg(
            g,
            _,
            _,
        ) && g == json_str_spec(params, "group_id"@)),
        request_spec("send_private_msg"@, params, echo) matches Ok(q) ==> (
        q matches RequestV::SendPrivateMsg(u, _, _) && u == json_str_spec(params, "user_id"@)),
{
    reveal_strlit("send_msg");
    reveal_strlit("send_group_msg");
    reveal_strlit("send_private_msg");
    assert("send_msg"@ != "send_group_msg"@) by {
        assert("send_msg"@.len() != "send_group_msg"@.len());
    }
    assert("send_msg"@ != "send_private_msg"@) by {
        assert("send_msg"@.len() != "send_private_msg"@.len());
    }
    assert("send_private_msg"@ != "send_group_msg"@) by {
        assert("send_private_msg"@.len() != "send_group_msg"@.len());
    }
}

} // verus!
