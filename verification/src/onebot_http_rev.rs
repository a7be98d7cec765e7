//! Reverse HTTP: which configured addresses take posted events, and the
//! HMAC signature that lets them check where an event came from.
use vstd::prelude::*;
use crate::text::{has_prefix, push_char, push_str, starts_with, to_string};

verus! {

/// The HMAC-SHA1 tag of `msg` under `key`.
pub uninterp spec fn hmac_sha1_tag(key: Seq<u8>, msg: Seq<u8>) -> Seq<u8>;

/// Computes HMAC-SHA1 with the `hmac` and `sha1` crates (`Hmac<Sha1>`:
/// `new_from_slice`, `update`, `finalize`). HMAC takes a key of any length,
/// so `new_from_slice` never fails. The contract names the tag and states
/// its length, SHA-1's 20 bytes.
#[verifier::external_body]
fn hmac_sha1(key: &[u8], msg: &[u8]) -> (r: Vec<u8>)
    ensures
        r@ == hmac_sha1_tag(key@, msg@),
        r@.len() == 20,
{
    let mut mac = <hmac::Hmac<sha1::Sha1> as hmac::Mac>::new_from_slice(key).expect(
        "HMAC can take key of any size",
    );
    hmac::Mac::update(&mut mac, msg);
    hmac::Mac::finalize(mac).into_bytes().to_vec()
}

/// The lowercase hexadecimal digit for `d < 16`.
pub open spec fn hex_digit(d: int) -> char {
    if d < 10 {
        ((d + 48) as u8) as char
    } else {
        ((d + 87) as u8) as char
    }
}

/// Bytes as lowercase hexadecimal text, two digits per byte.
pub open spec fn hex_lower(data: Seq<u8>) -> Seq<char>
    decreases data.len(),
{
    if data.len() == 0 {
        Seq::empty()
    } else {
        hex_lower(data.drop_last()) + seq![
            hex_digit((data.last() / 16) as int),
            hex_digit((data.last() % 16) as int),
        ]
    }
}

fn hex_char(d: u8) -> (c: char)
    requires
        d < 16,
    ensures
        c == hex_digit(d as int),
{
    if d < 10 {
        (d + 48) as char
    } else {
        (d + 87) as char
    }
}

/// Each byte as two lowercase hexadecimal digits, in order (what
/// `hex::encode` writes).
fn hex_encode(data: &[u8]) -> (r: String)
    ensures
        r@ == hex_lower(data@),
{
    let mut s = String::new();
    let n = data.len();
    let mut i: usize = 0;
    while i < n
        invariant
            n == data@.len(),
            i <= n,
            s@ == hex_lower(data@.take(i as int)),
        decreases n - i,
    {
        let b = data[i];
        let ghost before = s@;
        push_char(&mut s, hex_char(b / 16));
        push_char(&mut s, hex_char(b % 16));
        proof {
            assert(data@.take(i + 1).drop_last() =~= data@.take(i as int));
            assert(data@.take(i + 1).last() == b);
            assert(s@ =~= before + seq![hex_digit((b / 16) as int), hex_digit((b % 16) as int)]);
        }
        i = i + 1;
    }
    assert(data@.take(n as int) =~= data@);
    s
}

/// The `X-Signature` header for a posted event: `sha1=` and the hexadecimal
/// HMAC-SHA1 of the body under the secret; no header without a secret.
pub open spec fn signature_spec(secret: Seq<char>, body: Seq<char>) -> Option<Seq<char>> {
    if secret.len() == 0 {
        None
    } else {
        Some(
            "sha1="@ + hex_lower(
                hmac_sha1_tag(vstd::utf8::encode_utf8(secret), vstd::utf8::encode_utf8(body)),
            ),
        )
    }
}

/// The value of the `X-Signature` header for posting `body`, if a secret is set.
pub fn signature_header(secret: &str, body: &str) -> (r: Option<String>)
    ensures
        match r {
            Some(s) => signature_spec(secret@, body@) == Some(s@),
            None => signature_spec(secret@, body@) is None,
        },
{
    if secret.unicode_len() == 0 {
        return None;
    }
    let tag = hmac_sha1(secret.as_bytes(), body.as_bytes());
    let hex = hex_encode(tag.as_slice());
    let mut s = to_string("sha1=");
    push_str(&mut s, hex.as_str());
    Some(s)
}

/// Posted events go to the configured addresses that start with `http`.
pub open spec fn is_http_target(url: Seq<char>) -> bool {
    has_prefix(url, "http"@)
}

/// Reverse WebSocket connections go to the configured addresses that start
/// with `ws`.
pub open spec fn is_ws_target(url: Seq<char>) -> bool {
    has_prefix(url, "ws"@)
}

/// Whether events are posted to `url` over HTTP.
pub fn is_http_url(url: &str) -> (r: bool)
    ensures
        r == is_http_target(url@),
{
    starts_with(url, "http")
}

/// Whether a reverse WebSocket connection is made to `url`.
pub fn is_ws_url(url: &str) -> (r: bool)
    ensures
        r == is_ws_target(url@),
{
    starts_with(url, "ws")
}

/// The addresses among `urls` that take posted events, in order.
pub fn http_targets(urls: &Vec<String>) -> (r: Vec<String>)
    ensures
        r@.map_values(|u: String| u@) == urls@.map_values(|u: String| u@).filter(
            |u: Seq<char>| is_http_target(u),
        ),
{
    let ghost uv = urls@.map_values(|u: String| u@);
    let mut out: Vec<String> = Vec::new();
    let n = urls.len();
    let mut i: usize = 0;
    assert(uv.take(0) =~= Seq::<Seq<char>>::empty());
    assert(out@.map_values(|u: String| u@) =~= Seq::<Seq<char>>::empty());
    while i < n
        invariant
            n == urls@.len(),
            i <= n,
            uv == urls@.map_values(|u: String| u@),
            out@.map_values(|u: String| u@) == uv.take(i as int).filter(
                |u: Seq<char>| is_http_target(u),
            ),
        decreases n - i,
    {
        let ghost before = out@;
        assert(uv.take(i + 1).drop_last() =~= uv.take(i as int));
        assert(uv.take(i + 1).last() == urls@[i as int]@);
        reveal_with_fuel(Seq::filter, 1);
        if is_http_url(urls[i].as_str()) {
            out.push(to_string(urls[i].as_str()));
            assert(out@.map_values(|u: String| u@) =~= before.map_values(|u: String| u@).push(
                urls@[i as int]@,
            ));
        }
        i = i + 1;
    }
    assert(uv.take(n as int) =~= uv);
    out
}

/// The addresses among `urls` that take a reverse WebSocket connection, in order.
pub fn ws_targets(urls: &Vec<String>) -> (r: Vec<String>)
    ensures
        r@.map_values(|u: String| u@) == urls@.map_values(|u: String| u@).filter(
            |u: Seq<char>| is_ws_target(u),
        ),
{
    let ghost uv = urls@.map_values(|u: String| u@);
    let mut out: Vec<String> = Vec::new();
    let n = urls.len();
    let mut i: usize = 0;
    assert(uv.take(0) =~= Seq::<Seq<char>>::empty());
    assert(out@.map_values(|u: String| u@) =~= Seq::<Seq<char>>::empty());
    while i < n
        invariant
            n == urls@.len(),
            i <= n,
            uv == urls@.map_values(|u: String| u@),
            out@.map_values(|u: String| u@) == uv.take(i as int).filter(
                |u: Seq<char>| is_ws_target(u),
            ),
        decreases n - i,
    {
        let ghost before = out@;
        assert(uv.take(i + 1).drop_last() =~= uv.take(i as int));
        assert(uv.take(i + 1).last() == urls@[i as int]@);
        reveal_with_fuel(Seq::filter, 1);
        if is_ws_url(urls[i].as_str()) {
            out.push(to_string(urls[i].as_str()));
            assert(out@.map_values(|u: String| u@) =~= before.map_values(|u: String| u@).push(
                urls@[i as int]@,
            ));
        }
        i = i + 1;
    }
    assert(uv.take(n as int) =~= uv);
    out
}

/// Whether the reply to a posted event carries a JSON body to read: not for
/// `204 No Content`, nor for an empty body.
pub fn reply_has_body(status: u16, body_len: usize) -> (r: bool)
    ensures
        r == (status != 204 && body_len != 0),
{
    status != 204 && body_len != 0
}

} // verus!
