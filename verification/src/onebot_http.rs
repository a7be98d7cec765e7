//! The OneBot HTTP front end: query strings and form bodies, access-token
//! checks, and how a request is read.
use vstd::prelude::*;
use crate::cqcode::{params_insert, pairs_view};
use crate::json::{Json, JsonV, push_field, json_fields_view};
use crate::text::{chars_of, chars_eq, push_char, push_chars, str_eq, string_from_chars, to_string};

verus! {

/// What `urlencoding::decode` gives for `s`: the percent-decoded text, or
/// nothing when the decoded bytes are not UTF-8.
pub uninterp spec fn url_decoded(s: Seq<char>) -> Option<Seq<char>>;

/// `s` holds no `%`.
pub open spec fn no_percent(s: Seq<char>) -> bool {
    forall|i: int| 0 <= i < s.len() ==> s[i] != '%'
}

/// Percent-decodes `s` with `urlencoding::decode`. Its contract names the
/// result, and states the fact its source shows: text without `%` comes back
/// unchanged.
#[verifier::external_body]
fn url_decode(s: &str) -> (r: Option<String>)
    ensures
        r is None ==> url_decoded(s@) is None,
        r matches Some(d) ==> (url_decoded(s@) == Some(d@) && (no_percent(s@) ==> d@ == s@)),
        no_percent(s@) ==> r is Some,
{
    match urlencoding::decode(s) {
        Ok(d) => Some(d.into_owned()),
        Err(_) => None,
    }
}

/// What `url::form_urlencoded::parse` yields for a body, as name/value pairs
/// in order.
pub uninterp spec fn form_pairs(body: Seq<u8>) -> Seq<(Seq<char>, Seq<char>)>;

/// The name/value pairs of an `application/x-www-form-urlencoded` body, as
/// `url::form_urlencoded::parse` yields them. The contract names the result.
#[verifier::external_body]
fn form_urlencoded_pairs(body: &[u8]) -> (r: Vec<(String, String)>)
    ensures
        pairs_view(r@) == form_pairs(body@),
{
    url::form_urlencoded::parse(body).map(|(k, v)| (k.into_owned(), v.into_owned())).collect()
}

/// `s` split at each `sep`, empty parts included (what `str::split` yields).
pub open spec fn split_on(s: Seq<char>, sep: char) -> Seq<Seq<char>> {
    let (parts, cur) = split_state(s, sep);
    parts.push(cur)
}

/// The finished parts and the part being gathered after reading `s`.
pub open spec fn split_state(s: Seq<char>, sep: char) -> (Seq<Seq<char>>, Seq<char>)
    decreases s.len(),
{
    if s.len() == 0 {
        (Seq::empty(), Seq::empty())
    } else {
        let (parts, cur) = split_state(s.drop_last(), sep);
        if s.last() == sep {
            (parts.push(cur), Seq::empty())
        } else {
            (parts, cur.push(s.last()))
        }
    }
}

/// Where the first `c` in `s` stands, or -1.
pub open spec fn char_pos(s: Seq<char>, c: char) -> int
    decreases s.len(),
{
    if s.len() == 0 {
        -1
    } else if s[0] == c {
        0
    } else {
        let p = char_pos(s.drop_first(), c);
        if p < 0 {
            -1
        } else {
            p + 1
        }
    }
}

proof fn lemma_char_pos(s: Seq<char>, c: char, i: int)
    requires
        0 <= i <= s.len(),
        forall|j: int| 0 <= j < i ==> s[j] != c,
    ensures
        i < s.len() && s[i] == c ==> char_pos(s, c) == i,
        i == s.len() ==> char_pos(s, c) == -1,
    decreases i,
{
    if i > 0 {
        lemma_char_pos(s.drop_first(), c, i - 1);
    }
}

/// What one `&`-separated part of a query string sets: `name=value` or a bare
/// `name` (with an empty value), both percent-decoded; an empty part, or one
/// that does not decode, sets nothing.
pub open spec fn query_entry(p: Seq<char>) -> Option<(Seq<char>, Seq<char>)> {
    if p.len() == 0 {
        None
    } else {
        let i = char_pos(p, '=');
        if i >= 0 {
            match (url_decoded(p.take(i)), url_decoded(p.skip(i + 1))) {
                (Some(k), Some(v)) => Some((k, v)),
                _ => None,
            }
        } else {
            match url_decoded(p) {
                Some(k) => Some((k, Seq::empty())),
                None => None,
            }
        }
    }
}

/// The parameters set by the parts in order; a later one with the same
/// name replaces the value of an earlier one.
pub open spec fn query_fold(parts: Seq<Seq<char>>) -> Seq<(Seq<char>, Seq<char>)>
    decreases parts.len(),
{
    if parts.len() == 0 {
        Seq::empty()
    } else {
        let prev = query_fold(parts.drop_last());
        match query_entry(parts.last()) {
            Some((k, v)) => params_insert(prev, k, v),
            None => prev,
        }
    }
}

/// The parameters of a URI's query string (none without one).
pub open spec fn query_params_spec(query: Option<Seq<char>>) -> Seq<(Seq<char>, Seq<char>)> {
    match query {
        None => Seq::empty(),
        Some(q) => query_fold(split_on(q, '&')),
    }
}

/// Sets parameter `k` to `v` in a list of parameters (see `params_insert`).
pub fn set_param(ps: &mut Vec<(String, String)>, k: String, v: String)
    ensures
        pairs_view(final(ps)@) == params_insert(pairs_view(old(ps)@), k@, v@),
{
    let n = ps.len();
    let ghost pv = pairs_view(ps@);
    let mut i: usize = 0;
    let kc = chars_of(k.as_str());
    while i < n
        invariant
            n == ps@.len(),
            i <= n,
            ps@ == old(ps)@,
            pv == pairs_view(ps@),
            kc@ == k@,
            forall|j: int| 0 <= j < i ==> pv[j].0 != k@,
        decreases n - i,
    {
        let pc = chars_of(ps[i].0.as_str());
        if chars_eq(pc.as_slice(), kc.as_slice()) {
            proof {
                crate::cqcode::lemma_key_pos_at(pv, k@, i as int);
            }
            ps.set(i, (k, v));
            assert(pairs_view(ps@) =~= pv.update(i as int, (k@, v@)));
            return;
        }
        i = i + 1;
    }
    proof {
        crate::cqcode::lemma_key_pos_at(pv, k@, n as int);
    }
    ps.push((k, v));
    assert(pairs_view(ps@) =~= pv.push((k@, v@)));
}

fn query_entry_of(p: &Vec<char>) -> (r: Option<(String, String)>)
    ensures
        match r {
            Some(e) => query_entry(p@) == Some((e.0@, e.1@)),
            None => query_entry(p@) is None,
        },
{
    let n = p.len();
    if n == 0 {
        return None;
    }
    let mut i: usize = 0;
    while i < n
        invariant
            n == p@.len(),
            i <= n,
            forall|j: int| 0 <= j < i ==> p@[j] != '=',
        ensures
            i <= n,
            forall|j: int| 0 <= j < i ==> p@[j] != '=',
            i < n ==> p@[i as int] == '=',
        decreases n - i,
    {
        if p[i] == '=' {
            break;
        }
        i = i + 1;
    }
    proof {
        lemma_char_pos(p@, '=', i as int);
    }
    if i < n {
        let ks = string_from_chars(vstd::slice::slice_subrange(p.as_slice(), 0, i));
        let vs = string_from_chars(vstd::slice::slice_subrange(p.as_slice(), i + 1, n));
        assert(p@.take(i as int) =~= p@.subrange(0, i as int));
        assert(p@.skip(i + 1) =~= p@.subrange(i + 1, n as int));
        let k = url_decode(ks.as_str());
        let v = url_decode(vs.as_str());
        match (k, v) {
            (Some(k), Some(v)) => Some((k, v)),
            _ => None,
        }
    } else {
        let ks = string_from_chars(p.as_slice());
        match url_decode(ks.as_str()) {
            Some(k) => Some((k, String::new())),
            None => None,
        }
    }
}

/// The parameters of a URI's query string: `&`-separated `name=value` parts,
/// percent-decoded; parts that are empty or do not decode are skipped, and a
/// later parameter replaces an earlier one of the same name.
pub fn get_params_from_uri(query: Option<&str>) -> (r: Vec<(String, String)>)
    ensures
        pairs_view(r@) == query_params_spec(match query {
            Some(q) => Some(q@),
            None => None,
        }),
{
    let mut ret_map: Vec<(String, String)> = Vec::new();
    let q = match query {
        None => {
            assert(pairs_view(ret_map@) =~= Seq::<(Seq<char>, Seq<char>)>::empty());
            return ret_map;
        },
        Some(q) => q,
    };
    let cs = chars_of(q);
    let n = cs.len();
    let mut i: usize = 0;
    let mut cur: Vec<char> = Vec::new();
    let ghost mut parts: Seq<Seq<char>> = Seq::empty();
    assert(cs@.take(0) =~= Seq::<char>::empty());
    assert(pairs_view(ret_map@) =~= Seq::<(Seq<char>, Seq<char>)>::empty());
    while i < n
        invariant
            n == cs@.len(),
            i <= n,
            split_state(cs@.take(i as int), '&') == (parts, cur@),
            pairs_view(ret_map@) == query_fold(parts),
        decreases n - i,
    {
        let c = cs[i];
        assert(cs@.take(i + 1).drop_last() =~= cs@.take(i as int));
        if c == '&' {
            let e = query_entry_of(&cur);
            match e {
                Some((k, v)) => set_param(&mut ret_map, k, v),
                None => {},
            }
            proof {
                assert(parts.push(cur@).drop_last() =~= parts);
                parts = parts.push(cur@);
            }
            cur = Vec::new();
        } else {
            cur.push(c);
        }
        i = i + 1;
    }
    assert(cs@.take(n as int) =~= cs@);
    let e = query_entry_of(&cur);
    match e {
        Some((k, v)) => set_param(&mut ret_map, k, v),
        None => {},
    }
    proof {
        assert(parts.push(cur@).drop_last() =~= parts);
    }
    ret_map
}

/// Setting each pair in turn: later pairs of the same name win.
pub open spec fn pairs_fold(ps: Seq<(Seq<char>, Seq<char>)>) -> Seq<(Seq<char>, Seq<char>)>
    decreases ps.len(),
{
    if ps.len() == 0 {
        Seq::empty()
    } else {
        let prev = pairs_fold(ps.drop_last());
        params_insert(prev, ps.last().0, ps.last().1)
    }
}

/// The parameters of a form body (`application/x-www-form-urlencoded`):
/// the pairs that `url::form_urlencoded::parse` yields, later names winning.
pub fn form_params(body: &[u8]) -> (r: Vec<(String, String)>)
    ensures
        pairs_view(r@) == pairs_fold(form_pairs(body@)),
{
    let pairs = form_urlencoded_pairs(body);
    let ghost pv = pairs_view(pairs@);
    let mut out: Vec<(String, String)> = Vec::new();
    let n = pairs.len();
    let mut i: usize = 0;
    assert(pv.take(0) =~= Seq::<(Seq<char>, Seq<char>)>::empty());
    assert(pairs_view(out@) =~= Seq::<(Seq<char>, Seq<char>)>::empty());
    while i < n
        invariant
            n == pairs@.len(),
            i <= n,
            pv == pairs_view(pairs@),
            pairs_view(out@) == pairs_fold(pv.take(i as int)),
        decreases n - i,
    {
        let k = to_string(pairs[i].0.as_str());
        let v = to_string(pairs[i].1.as_str());
        set_param(&mut out, k, v);
        assert(pv.take(i + 1).drop_last() =~= pv.take(i as int));
        i = i + 1;
    }
    assert(pv.take(n as int) =~= pv);
    out
}

/// The parameters as a JSON object of strings.
pub fn params_json(ps: &Vec<(String, String)>) -> (r: Json)
    ensures
        r@ == JsonV::Object(pairs_view(ps@).map_values(
            |p: (Seq<char>, Seq<char>)| crate::cqcode::param_json(p),
        )),
{
    let mut fields: Vec<(String, Json)> = Vec::new();
    let ghost pv = pairs_view(ps@);
    let n = ps.len();
    let mut i: usize = 0;
    assert(json_fields_view(fields@) =~= pv.take(0).map_values(
        |p: (Seq<char>, Seq<char>)| crate::cqcode::param_json(p),
    ));
    while i < n
        invariant
            n == ps@.len(),
            i <= n,
            pv == pairs_view(ps@),
            json_fields_view(fields@) == pv.take(i as int).map_values(
                |p: (Seq<char>, Seq<char>)| crate::cqcode::param_json(p),
            ),
        decreases n - i,
    {
        push_field(&mut fields, ps[i].0.as_str(), Json::str_of(ps[i].1.as_str()));
        assert(pv.take(i + 1).map_values(|p: (Seq<char>, Seq<char>)| crate::cqcode::param_json(p))
            =~= pv.take(i as int).map_values(
            |p: (Seq<char>, Seq<char>)| crate::cqcode::param_json(p),
        ).push(crate::cqcode::param_json(pv[i as int])));
        i = i + 1;
    }
    assert(pv.take(n as int) =~= pv);
    Json::Object(fields)
}

/// The value of the first parameter named `k`.
pub open spec fn param_lookup(ps: Seq<(Seq<char>, Seq<char>)>, k: Seq<char>) -> Option<Seq<char>> {
    let p = crate::cqcode::key_pos(ps, k);
    if p < 0 {
        None
    } else {
        Some(ps[p].1)
    }
}

proof fn lemma_key_pos_range(ps: Seq<(Seq<char>, Seq<char>)>, k: Seq<char>)
    ensures
        -1 <= crate::cqcode::key_pos(ps, k) < ps.len(),
        crate::cqcode::key_pos(ps, k) >= 0 ==> ps[crate::cqcode::key_pos(ps, k)].0 == k,
        forall|j: int|
            0 <= j < ps.len() && (crate::cqcode::key_pos(ps, k) < 0 || j < crate::cqcode::key_pos(
                ps,
                k,
            )) ==> (#[trigger] ps[j]).0 != k,
    decreases ps.len(),
{
    if ps.len() > 0 {
        let t = ps.drop_first();
        lemma_key_pos_range(t, k);
        assert forall|j: int|
            0 <= j < ps.len() && (crate::cqcode::key_pos(ps, k) < 0 || j < crate::cqcode::key_pos(
                ps,
                k,
            )) implies (#[trigger] ps[j]).0 != k by {
            if j > 0 {
                assert(ps[j] == t[j - 1]);
            }
        }
    }
}

/// A later parameter replaces an earlier one of the same name: after `k`
/// is set to `v`, looking `k` up gives `v`, and every other name gives what
/// it gave before.
pub proof fn law_later_param_wins(
    ps: Seq<(Seq<char>, Seq<char>)>,
    k: Seq<char>,
    v: Seq<char>,
    other: Seq<char>,
)
    ensures
        param_lookup(params_insert(ps, k, v), k) == Some(v),
        other != k ==> param_lookup(params_insert(ps, k, v), other) == param_lookup(ps, other),
{
    let q = params_insert(ps, k, v);
    lemma_key_pos_range(ps, k);
    lemma_key_pos_range(ps, other);
    let p = crate::cqcode::key_pos(ps, k);
    assert(forall|j: int| 0 <= j < ps.len() ==> (#[trigger] q[j]).0 == ps[j].0);
    assert(forall|j: int| 0 <= j < ps.len() && j != p ==> #[trigger] q[j] == ps[j]);
    if p < 0 {
        assert(q[ps.len() as int] == (k, v));
        crate::cqcode::lemma_key_pos_at(q, k, ps.len() as int);
    } else {
        crate::cqcode::lemma_key_pos_at(q, k, p);
    }
    if other != k {
        let m = crate::cqcode::key_pos(ps, other);
        if m < 0 {
            crate::cqcode::lemma_key_pos_at(q, other, q.len() as int);
        } else {
            crate::cqcode::lemma_key_pos_at(q, other, m);
        }
    }
}

/// The value of the first parameter named `k`, if any.
pub fn get_param<'a>(ps: &'a Vec<(String, String)>, k: &str) -> (r: Option<&'a String>)
    ensures
        match r {
            Some(v) => param_lookup(pairs_view(ps@), k@) == Some(v@),
            None => param_lookup(pairs_view(ps@), k@) is None,
        },
{
    let ghost pv = pairs_view(ps@);
    let kc = chars_of(k);
    let n = ps.len();
    let mut i: usize = 0;
    while i < n
        invariant
            n == ps@.len(),
            i <= n,
            pv == pairs_view(ps@),
            kc@ == k@,
            forall|j: int| 0 <= j < i ==> pv[j].0 != k@,
        decreases n - i,
    {
        let pc = chars_of(ps[i].0.as_str());
        if chars_eq(pc.as_slice(), kc.as_slice()) {
            proof {
                crate::cqcode::lemma_key_pos_at(pv, k@, i as int);
            }
            return Some(&ps[i].1);
        }
        i = i + 1;
    }
    proof {
        crate::cqcode::lemma_key_pos_at(pv, k@, n as int);
    }
    None
}

/// Whether a request may act: always when no access token is set; else when
/// the `Authorization` header is `Bearer <token>`, or the query string's
/// `access_token` is the token.
pub open spec fn check_auth_spec(
    token: Seq<char>,
    authorization: Option<Seq<char>>,
    query: Option<Seq<char>>,
) -> bool {
    if token.len() == 0 {
        true
    } else {
        let header = match authorization {
            Some(a) => a,
            None => Seq::empty(),
        };
        header == "Bearer "@ + token || param_lookup(query_params_spec(query), "access_token"@)
            == Some(token)
    }
}

/// Checks a request against the access token: `token` is the configured
/// token, `authorization` the text of the `Authorization` header, `query`
/// the URI's query string.
pub fn check_auth(token: &str, authorization: Option<&str>, query: Option<&str>) -> (r: bool)
    ensures
        r == check_auth_spec(
            token@,
            match authorization {
                Some(a) => Some(a@),
                None => None,
            },
            match query {
                Some(q) => Some(q@),
                None => None,
            },
        ),
{
    let tc = chars_of(token);
    if tc.len() == 0 {
        return true;
    }
    let mut is_pass = false;
    let access_token = match authorization {
        Some(a) => to_string(a),
        None => String::new(),
    };
    let mut expected = to_string("Bearer ");
    crate::text::push_str(&mut expected, token);
    if str_eq(access_token.as_str(), expected.as_str()) {
        is_pass = true;
    }
    let mp = get_params_from_uri(query);
    match get_param(&mp, "access_token") {
        Some(val) => {
            if str_eq(token, val.as_str()) {
                is_pass = true;
            }
        },
        None => {},
    }
    is_pass
}

/// Where the parameters of an HTTP call come from.
#[derive(Debug, Clone, Copy, PartialEq, Eq, Structural)]
pub enum HttpPlan {
    /// From the query string (`GET`).
    Query,
    /// From a JSON body (`POST`, `application/json`).
    JsonBody,
    /// From a form body (`POST`, form content type or none).
    FormBody,
    /// A `POST` body of another content type: answered with 406.
    NotAcceptable,
    /// Another method: answered with an empty 200.
    Ignore,
}

pub open spec fn http_plan_spec(method: Seq<char>, content_type: Option<Seq<char>>) -> HttpPlan {
    if method == "GET"@ {
        HttpPlan::Query
    } else if method == "POST"@ {
        match content_type {
            Some(ct) => if ct == "application/json"@ {
                HttpPlan::JsonBody
            } else if ct == "application/x-www-form-urlencoded"@ {
                HttpPlan::FormBody
            } else {
                HttpPlan::NotAcceptable
            },
            None => HttpPlan::FormBody,
        }
    } else {
        HttpPlan::Ignore
    }
}

/// How an HTTP call is read, from its method and `Content-Type`.
pub fn http_plan(method: &str, content_type: Option<&str>) -> (r: HttpPlan)
    ensures
        r == http_plan_spec(
            method@,
            match content_type {
                Some(c) => Some(c@),
                None => None,
            },
        ),
{
    if str_eq(method, "GET") {
        HttpPlan::Query
    } else if str_eq(method, "POST") {
        match content_type {
            Some(ct) => if str_eq(ct, "application/json") {
                HttpPlan::JsonBody
            } else if str_eq(ct, "application/x-www-form-urlencoded") {
                HttpPlan::FormBody
            } else {
                HttpPlan::NotAcceptable
            },
            None => HttpPlan::FormBody,
        }
    } else {
        HttpPlan::Ignore
    }
}

/// The action named by a request path: the path without its first
/// character, when that character is a single byte.
pub open spec fn action_from_path_spec(path: Seq<char>) -> Option<Seq<char>> {
    if path.len() > 0 && (path[0] as u32) < 128 {
        Some(path.skip(1))
    } else {
        None
    }
}

/// The OneBot action of an HTTP call (`/send_msg` names `send_msg`).
pub fn action_from_path(path: &str) -> (r: Option<String>)
    ensures
        match r {
            Some(a) => action_from_path_spec(path@) == Some(a@),
            None => action_from_path_spec(path@) is None,
        },
{
    let cs = chars_of(path);
    if cs.len() > 0 && (cs[0] as u32) < 128 {
        let rest = vstd::slice::slice_subrange(cs.as_slice(), 1, cs.len());
        assert(path@.skip(1) =~= cs@.subrange(1, cs@.len() as int));
        Some(string_from_chars(rest))
    } else {
        None
    }
}

/// The body of a failed HTTP call: `{"status":"failed","retcode":<code>}`
/// (1400 for a body that is not JSON, 1406 for an unknown content type).
pub fn failed_call(retcode: i64) -> (r: Json)
    ensures
        r@ == JsonV::Object(
            seq![("status"@, JsonV::Str("failed"@)), ("retcode"@, crate::json::int_v(retcode))],
        ),
{
    let mut f: Vec<(String, Json)> = Vec::new();
    push_field(&mut f, "status", Json::str_of("failed"));
    push_field(&mut f, "retcode", Json::from_i64(retcode));
    assert(json_fields_view(f@) =~= seq![
        ("status"@, JsonV::Str("failed"@)),
        ("retcode"@, crate::json::int_v(retcode)),
    ]);
    Json::Object(f)
}

/// The OneBot call that an HTTP request stands for: `{"action": ..., "params": ...}`.
pub fn onebot_call_json(action: &str, params: Json) -> (r: Json)
    ensures
        r@ == JsonV::Object(seq![("action"@, JsonV::Str(action@)), ("params"@, params@)]),
{
    let mut f: Vec<(String, Json)> = Vec::new();
    push_field(&mut f, "action", Json::str_of(action));
    let ghost pv = params@;
    push_field(&mut f, "params", params);
    assert(json_fields_view(f@) =~= seq![("action"@, JsonV::Str(action@)), ("params"@, pv)]);
    Json::Object(f)
}

/// Without an access token every request passes; with one, a request
/// passes when its `Authorization` header is `Bearer <token>`, whatever its
/// query, and a request with neither that header nor an `access_token`
/// parameter is refused.
pub proof fn law_access_token(token: Seq<char>, authorization: Option<Seq<char>>, query: Option<Seq<char>>)
    ensures
        token.len() == 0 ==> check_auth_spec(token, authorization, query),
        check_auth_spec(token, Some("Bearer "@ + token), query),
        token.len() > 0 && authorization is None && query is None ==> !check_auth_spec(
            token,
            authorization,
            query,
        ),
{
    if token.len() > 0 && authorization is None && query is None {
        reveal_strlit("Bearer ");
        assert(("Bearer "@ + token).len() > 0);
        assert(param_lookup(Seq::empty(), "access_token"@) is None) by {
            crate::cqcode::lemma_key_pos_at(Seq::empty(), "access_token"@, 0);
        }
    }
}

} // verus!
