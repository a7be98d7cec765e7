//! CQ codes: the text form of OneBot messages (`[CQ:type,key=value,...]`
//! between runs of plain text), their escaping, and KOOK's markdown escaping.
use vstd::prelude::*;
use crate::text::{push_char, push_str, string_from_chars, chars_of, chars_eq};
use crate::json::{Json, JsonV, json_view, json_seq_view, json_fields_view, lemma_seq_view, lemma_fields_view, push_field};

verus! {

/// The characters of `s`, each replaced by what `f` makes of it.
pub open spec fn escape_all(s: Seq<char>, f: spec_fn(char) -> Seq<char>) -> Seq<char>
    decreases s.len(),
{
    if s.len() == 0 {
        Seq::empty()
    } else {
        escape_all(s.drop_last(), f) + f(s.last())
    }
}

/// Escaping distributes over concatenation.
pub proof fn lemma_escape_concat(a: Seq<char>, b: Seq<char>, f: spec_fn(char) -> Seq<char>)
    ensures
        escape_all(a + b, f) == escape_all(a, f) + escape_all(b, f),
    decreases b.len(),
{
    if b.len() == 0 {
        assert(a + b =~= a);
        assert(escape_all(b, f) =~= Seq::<char>::empty());
        assert(escape_all(a, f) + Seq::<char>::empty() =~= escape_all(a, f));
    } else {
        lemma_escape_concat(a, b.drop_last(), f);
        assert((a + b).drop_last() =~= a + b.drop_last());
        assert((a + b).last() == b.last());
        assert(escape_all(a, f) + escape_all(b.drop_last(), f) + f(b.last()) =~= escape_all(a, f)
            + (escape_all(b.drop_last(), f) + f(b.last())));
    }
}

/// Escaping a non-empty sequence: the first character's escape, then the rest.
pub proof fn lemma_escape_front(s: Seq<char>, f: spec_fn(char) -> Seq<char>)
    requires
        s.len() > 0,
    ensures
        escape_all(s, f) == f(s[0]) + escape_all(s.drop_first(), f),
{
    assert(s =~= seq![s[0]] + s.drop_first());
    lemma_escape_concat(seq![s[0]], s.drop_first(), f);
    let one = seq![s[0]];
    assert(one.drop_last() =~= Seq::<char>::empty());
    assert(one.last() == s[0]);
    assert(escape_all(Seq::<char>::empty(), f) =~= Seq::<char>::empty());
    assert(escape_all(one, f) == escape_all(one.drop_last(), f) + f(one.last()));
    assert(escape_all(one, f) =~= f(s[0]));
}

pub open spec fn amp_entity() -> Seq<char> {
    seq!['&', 'a', 'm', 'p', ';']
}

pub open spec fn lbracket_entity() -> Seq<char> {
    seq!['&', '#', '9', '1', ';']
}

pub open spec fn rbracket_entity() -> Seq<char> {
    seq!['&', '#', '9', '3', ';']
}

pub open spec fn comma_entity() -> Seq<char> {
    seq!['&', '#', '4', '4', ';']
}

/// How plain text escapes one character inside a CQ string.
pub open spec fn text_escape(c: char) -> Seq<char> {
    if c == '&' {
        amp_entity()
    } else if c == '[' {
        lbracket_entity()
    } else if c == ']' {
        rbracket_entity()
    } else {
        seq![c]
    }
}

/// How a CQ parameter value escapes one character.
pub open spec fn param_escape(c: char) -> Seq<char> {
    if c == ',' {
        comma_entity()
    } else {
        text_escape(c)
    }
}

/// The characters that KOOK markdown gives a meaning to.
pub open spec fn is_kook_special(c: char) -> bool {
    c == '\\' || c == '*' || c == '~' || c == '[' || c == '(' || c == ')' || c == ']' || c == '-'
        || c == '>' || c == '`'
}

/// How KOOK markdown escapes one character: a backslash before each special one.
pub open spec fn kook_escape(c: char) -> Seq<char> {
    if is_kook_special(c) {
        seq!['\\', c]
    } else {
        seq![c]
    }
}

pub open spec fn cq_text_encoded(s: Seq<char>) -> Seq<char> {
    escape_all(s, |c: char| text_escape(c))
}

pub open spec fn cq_params_encoded(s: Seq<char>) -> Seq<char> {
    escape_all(s, |c: char| param_escape(c))
}

pub open spec fn kook_text(s: Seq<char>) -> Seq<char> {
    escape_all(s, |c: char| kook_escape(c))
}

fn push_entity(out: &mut String, e: [char; 5])
    ensures
        final(out)@ == old(out)@ + e@,
{
    let ghost start = out@;
    push_char(out, e[0]);
    push_char(out, e[1]);
    push_char(out, e[2]);
    push_char(out, e[3]);
    push_char(out, e[4]);
    assert(out@ =~= start + e@);
}

fn push_text_escape(out: &mut String, ch: char)
    ensures
        final(out)@ == old(out)@ + text_escape(ch),
{
    if ch == '&' {
        push_entity(out, ['&', 'a', 'm', 'p', ';']);
        assert(['&', 'a', 'm', 'p', ';']@ =~= amp_entity());
    } else if ch == '[' {
        push_entity(out, ['&', '#', '9', '1', ';']);
        assert(['&', '#', '9', '1', ';']@ =~= lbracket_entity());
    } else if ch == ']' {
        push_entity(out, ['&', '#', '9', '3', ';']);
        assert(['&', '#', '9', '3', ';']@ =~= rbracket_entity());
    } else {
        push_char(out, ch);
    }
}

/// Escapes plain text for a CQ string: `&`, `[` and `]` become `&amp;`,
/// `&#91;` and `&#93;`.
pub fn cq_text_encode(data: &str) -> (r: String)
    ensures
        r@ == cq_text_encoded(data@),
{
    let mut out = String::new();
    for ch in it: data.chars()
        invariant
            it.seq() == data@,
            out@ == cq_text_encoded(it.seq().take(it.index() as int)),
    {
        let ghost pre = it.seq().take(it.index() as int);
        proof {
            assert(it.seq().take(it.index() + 1).drop_last() =~= pre);
        }
        push_text_escape(&mut out, ch);
    }
    assert(data@.take(data@.len() as int) =~= data@);
    out
}

/// Escapes a CQ parameter value: like plain text, and `,` becomes `&#44;`.
pub fn cq_params_encode(data: &str) -> (r: String)
    ensures
        r@ == cq_params_encoded(data@),
{
    let mut out = String::new();
    for ch in it: data.chars()
        invariant
            it.seq() == data@,
            out@ == cq_params_encoded(it.seq().take(it.index() as int)),
    {
        let ghost pre = it.seq().take(it.index() as int);
        proof {
            assert(it.seq().take(it.index() + 1).drop_last() =~= pre);
        }
        if ch == ',' {
            push_entity(&mut out, ['&', '#', '4', '4', ';']);
            assert(['&', '#', '4', '4', ';']@ =~= comma_entity());
        } else {
            push_text_escape(&mut out, ch);
        }
    }
    assert(data@.take(data@.len() as int) =~= data@);
    out
}

/// How many characters of `s` KOOK markdown gives a meaning to.
pub open spec fn kook_specials(s: Seq<char>) -> nat
    decreases s.len(),
{
    if s.len() == 0 {
        0
    } else {
        kook_specials(s.drop_last()) + if is_kook_special(s.last()) {
            1nat
        } else {
            0nat
        }
    }
}

/// KOOK markdown read back as plain text: a backslash before a special
/// character is dropped.
pub open spec fn kook_unescape(s: Seq<char>) -> Seq<char>
    decreases s.len(),
{
    if s.len() == 0 {
        s
    } else if s.len() >= 2 && s[0] == '\\' && is_kook_special(s[1]) {
        seq![s[1]] + kook_unescape(s.skip(2))
    } else {
        seq![s[0]] + kook_unescape(s.drop_first())
    }
}

/// KOOK markdown escaping loses nothing and adds one backslash for each
/// special character: reading the escaped text back gives the text, and
/// its length is the text's plus the number of special characters.
pub proof fn law_kook_text_round_trip(s: Seq<char>)
    ensures
        kook_unescape(kook_text(s)) == s,
        kook_text(s).len() == s.len() + kook_specials(s),
    decreases s.len(),
{
    let f = |c: char| kook_escape(c);
    if s.len() > 0 {
        law_kook_text_round_trip(s.drop_first());
        law_kook_text_round_trip(s.drop_last());
        lemma_escape_front(s, f);
        let r = kook_text(s.drop_first());
        let c = s[0];
        if is_kook_special(c) {
            let e = seq!['\\', c] + r;
            assert(e.skip(2) =~= r);
            assert(e[0] == '\\' && e[1] == c);
            assert(seq![c] + s.drop_first() =~= s);
        } else {
            let e = seq![c] + r;
            assert(e.drop_first() =~= r);
            assert(e[0] == c);
            assert(seq![c] + s.drop_first() =~= s);
        }
    }
}

/// Escapes text for KOOK markdown: a backslash before each of
/// `\ * ~ [ ( ) ] - > `` ` ``.
pub fn make_kook_text(text: &str) -> (r: String)
    ensures
        r@ == kook_text(text@),
{
    let mut s = String::new();
    for it in iter: text.chars()
        invariant
            iter.seq() == text@,
            s@ == kook_text(iter.seq().take(iter.index() as int)),
    {
        proof {
            assert(iter.seq().take(iter.index() + 1).drop_last() =~= iter.seq().take(
                iter.index() as int,
            ));
        }
        if it == '\\' || it == '*' || it == '~' || it == '[' || it == '(' || it == ')' || it == ']'
            || it == '-' || it == '>' || it == '`' {
            push_char(&mut s, '\\');
        }
        push_char(&mut s, it);
        proof {
            if is_kook_special(it) {
                assert(seq!['\\', it] =~= seq!['\\'].push(it));
            }
        }
    }
    assert(text@.take(text@.len() as int) =~= text@);
    s
}

proof fn lemma_escape_avoids(s: Seq<char>, f: spec_fn(char) -> Seq<char>, x: char)
    requires
        forall|c: char| !(#[trigger] f(c)).contains(x),
    ensures
        !escape_all(s, f).contains(x),
    decreases s.len(),
{
    if s.len() > 0 {
        lemma_escape_avoids(s.drop_last(), f, x);
        let a = escape_all(s.drop_last(), f);
        let b = f(s.last());
        assert(!b.contains(x));
        if (a + b).contains(x) {
            let i = choose|i: int| 0 <= i < (a + b).len() && (a + b)[i] == x;
            if i < a.len() {
                assert(a[i] == x);
            } else {
                assert(b[i - a.len()] == x);
            }
        }
    }
}

/// Escaped text can never be taken for a CQ code: text escaped by
/// `cq_text_encode` holds no `[` or `]`, and a parameter value escaped by
/// `cq_params_encode` holds no `[`, `]` or `,` either.
pub proof fn law_escaped_text_has_no_markup(s: Seq<char>)
    ensures
        !cq_text_encoded(s).contains('['),
        !cq_text_encoded(s).contains(']'),
        !cq_params_encoded(s).contains('['),
        !cq_params_encoded(s).contains(']'),
        !cq_params_encoded(s).contains(','),
{
    let ft = |c: char| text_escape(c);
    let fp = |c: char| param_escape(c);
    assert forall|c: char| !(#[trigger] ft(c)).contains('[') && !ft(c).contains(']') && !fp(
        c,
    ).contains('[') && !fp(c).contains(']') && !fp(c).contains(',') by {
        let t = ft(c);
        let p = fp(c);
        assert forall|i: int| 0 <= i < t.len() implies t[i] != '[' && t[i] != ']' by {}
        assert forall|i: int| 0 <= i < p.len() implies p[i] != '[' && p[i] != ']' && p[i] != ',' by {}
    }
    lemma_escape_avoids(s, ft, '[');
    lemma_escape_avoids(s, ft, ']');
    lemma_escape_avoids(s, fp, '[');
    lemma_escape_avoids(s, fp, ']');
    lemma_escape_avoids(s, fp, ',');
}


/// A piece of a OneBot message: a run of plain text, or a CQ code with its
/// type and its parameters in order.
pub enum CqSegV {
    Text(Seq<char>),
    Code(Seq<char>, Seq<(Seq<char>, Seq<char>)>),
}

/// A piece of a OneBot message: plain text, or a CQ code (type, parameters).
pub enum CqSegment {
    Text(String),
    Code(String, Vec<(String, String)>),
}

pub open spec fn pair_view(p: (String, String)) -> (Seq<char>, Seq<char>) {
    (p.0@, p.1@)
}

pub open spec fn pairs_view(ps: Seq<(String, String)>) -> Seq<(Seq<char>, Seq<char>)> {
    ps.map_values(|p: (String, String)| pair_view(p))
}

impl View for CqSegment {
    type V = CqSegV;

    open spec fn view(&self) -> CqSegV {
        match self {
            CqSegment::Text(t) => CqSegV::Text(t@),
            CqSegment::Code(k, ps) => CqSegV::Code(k@, pairs_view(ps@)),
        }
    }
}

pub open spec fn segs_view(v: Seq<CqSegment>) -> Seq<CqSegV> {
    v.map_values(|s: CqSegment| s@)
}

/// Where the first parameter named `k` stands, or -1.
pub open spec fn key_pos(ps: Seq<(Seq<char>, Seq<char>)>, k: Seq<char>) -> int
    decreases ps.len(),
{
    if ps.len() == 0 {
        -1
    } else if ps[0].0 == k {
        0
    } else {
        let p = key_pos(ps.drop_first(), k);
        if p < 0 {
            -1
        } else {
            p + 1
        }
    }
}

/// Setting parameter `k` to `v`: a parameter already named `k` takes the new
/// value in place, else `(k, v)` goes last.
pub open spec fn params_insert(ps: Seq<(Seq<char>, Seq<char>)>, k: Seq<char>, v: Seq<char>) -> Seq<
    (Seq<char>, Seq<char>),
> {
    let p = key_pos(ps, k);
    if p < 0 {
        ps.push((k, v))
    } else {
        ps.update(p, (k, v))
    }
}

proof fn lemma_key_pos(ps: Seq<(Seq<char>, Seq<char>)>, k: Seq<char>, i: int)
    requires
        0 <= i <= ps.len(),
        forall|j: int| 0 <= j < i ==> ps[j].0 != k,
    ensures
        i < ps.len() && ps[i].0 == k ==> key_pos(ps, k) == i,
        i == ps.len() ==> key_pos(ps, k) == -1,
    decreases i,
{
    if i > 0 {
        lemma_key_pos(ps.drop_first(), k, i - 1);
    }
}

/// Where `k` first stands among the parameter names, given that it is not
/// among the first `i`.
pub proof fn lemma_key_pos_at(ps: Seq<(Seq<char>, Seq<char>)>, k: Seq<char>, i: int)
    requires
        0 <= i <= ps.len(),
        forall|j: int| 0 <= j < i ==> ps[j].0 != k,
    ensures
        i < ps.len() && ps[i].0 == k ==> key_pos(ps, k) == i,
        i == ps.len() ==> key_pos(ps, k) == -1,
{
    lemma_key_pos(ps, k, i);
}

/// The state of the CQ reader: which part it is in (0 text, 1 type, 2 key,
/// 3 value), the parts read so far, and the pieces finished.
pub struct CqReadState {
    pub stat: int,
    pub text: Seq<char>,
    pub typ: Seq<char>,
    pub key: Seq<char>,
    pub val: Seq<char>,
    pub params: Seq<(Seq<char>, Seq<char>)>,
    pub out: Seq<CqSegV>,
}

pub open spec fn cq_start() -> CqReadState {
    CqReadState {
        stat: 0,
        text: Seq::empty(),
        typ: Seq::empty(),
        key: Seq::empty(),
        val: Seq::empty(),
        params: Seq::empty(),
        out: Seq::empty(),
    }
}

/// The character that an entity at the start of `rest` stands for:
/// `&#91;`, `&#93;`, `&amp;`, and `&#44;` where `comma` allows it.
pub open spec fn entity_v(rest: Seq<char>, comma: bool) -> Option<char> {
    if rest.len() >= 5 {
        let w = rest.take(5);
        if w == lbracket_entity() {
            Some('[')
        } else if w == rbracket_entity() {
            Some(']')
        } else if w == amp_entity() {
            Some('&')
        } else if comma && w == comma_entity() {
            Some(',')
        } else {
            None
        }
    } else {
        None
    }
}

pub open spec fn is_cq_open(rest: Seq<char>) -> bool {
    rest.len() >= 4 && rest[0] == '[' && rest[1] == 'C' && rest[2] == 'Q' && rest[3] == ':'
}

/// The text read so far, as a finished piece when it is not empty.
pub open spec fn flush_text(out: Seq<CqSegV>, text: Seq<char>) -> Seq<CqSegV> {
    if text.len() != 0 {
        out.push(CqSegV::Text(text))
    } else {
        out
    }
}

/// The character read at the start of `rest` (decoding an entity where the
/// part allows it) and how many characters it takes.
pub open spec fn read_char(rest: Seq<char>, comma: bool) -> (char, int) {
    if rest[0] == '&' {
        match entity_v(rest, comma) {
            Some(e) => (e, 5),
            None => ('&', 1),
        }
    } else {
        (rest[0], 1)
    }
}

/// One step of the CQ reader on the non-empty input `rest`: the next state
/// and how many characters it took.
pub open spec fn cq_step(st: CqReadState, rest: Seq<char>) -> (CqReadState, int) {
    let c = rest[0];
    if st.stat == 0 {
        if c == '[' {
            if is_cq_open(rest) {
                (CqReadState { stat: 1, text: Seq::empty(), out: flush_text(st.out, st.text), ..st }, 4)
            } else {
                (CqReadState { text: st.text.push('['), ..st }, 1)
            }
        } else {
            let (e, n) = read_char(rest, false);
            (CqReadState { text: st.text.push(e), ..st }, n)
        }
    } else if st.stat == 1 {
        if c == ',' {
            (CqReadState { stat: 2, ..st }, 1)
        } else {
            let (e, n) = read_char(rest, true);
            (CqReadState { typ: st.typ.push(e), ..st }, n)
        }
    } else if st.stat == 2 {
        if c == '=' {
            (CqReadState { stat: 3, ..st }, 1)
        } else {
            let (e, n) = read_char(rest, true);
            (CqReadState { key: st.key.push(e), ..st }, n)
        }
    } else {
        if c == ']' {
            (
                CqReadState {
                    stat: 0,
                    text: Seq::empty(),
                    typ: Seq::empty(),
                    key: Seq::empty(),
                    val: Seq::empty(),
                    params: Seq::empty(),
                    out: st.out.push(
                        CqSegV::Code(st.typ, params_insert(st.params, st.key, st.val)),
                    ),
                },
                1,
            )
        } else if c == ',' {
            (
                CqReadState {
                    stat: 2,
                    key: Seq::empty(),
                    val: Seq::empty(),
                    params: params_insert(st.params, st.key, st.val),
                    ..st
                },
                1,
            )
        } else {
            let (e, n) = read_char(rest, true);
            (CqReadState { val: st.val.push(e), ..st }, n)
        }
    }
}

pub proof fn lemma_step_len(st: CqReadState, rest: Seq<char>)
    requires
        rest.len() > 0,
    ensures
        1 <= cq_step(st, rest).1 <= rest.len(),
{
}

/// The pieces the CQ reader finishes from state `st` on input `rest`;
/// a CQ code still open at the end is dropped.
pub open spec fn cq_run(st: CqReadState, rest: Seq<char>) -> Seq<CqSegV>
    decreases rest.len(),
{
    if rest.len() == 0 {
        flush_text(st.out, st.text)
    } else {
        let (st2, n) = cq_step(st, rest);
        proof {
            lemma_step_len(st, rest);
        }
        cq_run(st2, rest.skip(n))
    }
}

/// The pieces of the CQ string `s`.
pub open spec fn cq_parse(s: Seq<char>) -> Seq<CqSegV> {
    cq_run(cq_start(), s)
}

fn window_is(cs: &Vec<char>, i: usize, e: [char; 5]) -> (r: bool)
    requires
        i + 5 <= cs.len(),
    ensures
        r == (cs@.skip(i as int).take(5) == e@),
{
    let ghost w = cs@.skip(i as int).take(5);
    if cs[i] == e[0] && cs[i + 1] == e[1] && cs[i + 2] == e[2] && cs[i + 3] == e[3] && cs[i + 4]
        == e[4] {
        assert(w =~= e@);
        true
    } else {
        assert(w[0] == cs@[i as int] && w[1] == cs@[i + 1] && w[2] == cs@[i + 2] && w[3] == cs@[i
            + 3] && w[4] == cs@[i + 4]);
        false
    }
}

fn entity_at(cs: &Vec<char>, i: usize, comma: bool) -> (r: Option<char>)
    requires
        i <= cs@.len(),
    ensures
        r == entity_v(cs@.skip(i as int), comma),
{
    if cs.len() < 5 || i > cs.len() - 5 {
        return None;
    }
    let ghost w = cs@.skip(i as int).take(5);
    assert(['&', '#', '9', '1', ';']@ =~= lbracket_entity());
    assert(['&', '#', '9', '3', ';']@ =~= rbracket_entity());
    assert(['&', 'a', 'm', 'p', ';']@ =~= amp_entity());
    assert(['&', '#', '4', '4', ';']@ =~= comma_entity());
    if window_is(cs, i, ['&', '#', '9', '1', ';']) {
        Some('[')
    } else if window_is(cs, i, ['&', '#', '9', '3', ';']) {
        Some(']')
    } else if window_is(cs, i, ['&', 'a', 'm', 'p', ';']) {
        Some('&')
    } else if comma && window_is(cs, i, ['&', '#', '4', '4', ';']) {
        Some(',')
    } else {
        None
    }
}

fn read_char_at(cs: &Vec<char>, i: usize, comma: bool) -> (r: (char, usize))
    requires
        i < cs@.len(),
    ensures
        (r.0, r.1 as int) == read_char(cs@.skip(i as int), comma),
        i + r.1 <= cs@.len(),
{
    let c = cs[i];
    assert(cs@.skip(i as int)[0] == c);
    if c == '&' {
        match entity_at(cs, i, comma) {
            Some(e) => (e, 5),
            None => ('&', 1),
        }
    } else {
        (c, 1)
    }
}

/// Sets parameter `k` to `v` (see `params_insert`).
fn params_set(ps: &mut Vec<(String, String)>, k: String, v: String)
    ensures
        pairs_view(final(ps)@) == params_insert(pairs_view(old(ps)@), k@, v@),
{
    let n = ps.len();
    let ghost pv = pairs_view(ps@);
    let mut i: usize = 0;
    let kc = chars_of(k.as_str());
    while i < n
        invariant
            n == ps@.len(),
            i <= n,
            ps@ == old(ps)@,
            pv == pairs_view(ps@),
            kc@ == k@,
            forall|j: int| 0 <= j < i ==> pv[j].0 != k@,
        decreases n - i,
    {
        let pc = chars_of(ps[i].0.as_str());
        if chars_eq(pc.as_slice(), kc.as_slice()) {
            proof {
                lemma_key_pos(pv, k@, i as int);
            }
            ps.set(i, (k, v));
            assert(pairs_view(ps@) =~= pv.update(i as int, (k@, v@)));
            return;
        }
        i = i + 1;
    }
    proof {
        lemma_key_pos(pv, k@, n as int);
    }
    ps.push((k, v));
    assert(pairs_view(ps@) =~= pv.push((k@, v@)));
}

pub open spec fn read_state_of(
    stat: u8,
    text: Seq<char>,
    typ: Seq<char>,
    key: Seq<char>,
    val: Seq<char>,
    params: Seq<(String, String)>,
    out: Seq<CqSegment>,
) -> CqReadState {
    CqReadState {
        stat: stat as int,
        text,
        typ,
        key,
        val,
        params: pairs_view(params),
        out: segs_view(out),
    }
}

/// Reads the pieces of a CQ string given as characters.
pub fn parse_cq_chars(cs: &Vec<char>) -> (r: Vec<CqSegment>)
    ensures
        segs_view(r@) == cq_parse(cs@),
{
    let n = cs.len();
    let mut i: usize = 0;
    let mut stat: u8 = 0;
    let mut text: Vec<char> = Vec::new();
    let mut typ: Vec<char> = Vec::new();
    let mut key: Vec<char> = Vec::new();
    let mut val: Vec<char> = Vec::new();
    let mut params: Vec<(String, String)> = Vec::new();
    let mut out: Vec<CqSegment> = Vec::new();
    proof {
        assert(cs@.skip(0) =~= cs@);
        assert(pairs_view(params@) =~= Seq::<(Seq<char>, Seq<char>)>::empty());
        assert(segs_view(out@) =~= Seq::<CqSegV>::empty());
        assert(read_state_of(stat, text@, typ@, key@, val@, params@, out@) == cq_start());
    }
    while i < n
        invariant
            n == cs@.len(),
            i <= n,
            stat <= 3,
            cq_run(read_state_of(stat, text@, typ@, key@, val@, params@, out@), cs@.skip(i as int))
                == cq_parse(cs@),
        decreases n - i,
    {
        let ghost st = read_state_of(stat, text@, typ@, key@, val@, params@, out@);
        let ghost rest = cs@.skip(i as int);
        let ghost step = cq_step(st, rest);
        proof {
            lemma_step_len(st, rest);
            assert(cq_run(st, rest) == cq_run(step.0, rest.skip(step.1)));
        }
        let c = cs[i];
        assert(rest[0] == c);
        let adv: usize;
        if stat == 0 {
            if c == '[' && n >= 4 && i <= n - 4 && cs[i + 1] == 'C' && cs[i + 2] == 'Q' && cs[i + 3]
                == ':' {
                assert(is_cq_open(rest));
                if text.len() != 0 {
                    let t = string_from_chars(text.as_slice());
                    out.push(CqSegment::Text(t));
                    text = Vec::new();
                }
                stat = 1;
                adv = 4;
                proof {
                    assert(segs_view(out@) =~= flush_text(st.out, st.text));
                    assert(text@ =~= Seq::<char>::empty());
                }
            } else if c == '[' {
                assert(!is_cq_open(rest));
                text.push('[');
                adv = 1;
                assert(read_state_of(stat, text@, typ@, key@, val@, params@, out@) == step.0);
            } else {
                let (e, m) = read_char_at(cs, i, false);
                text.push(e);
                adv = m;
                assert(read_state_of(stat, text@, typ@, key@, val@, params@, out@) == step.0);
            }
        } else if stat == 1 {
            if c == ',' {
                stat = 2;
                adv = 1;
            } else {
                let (e, m) = read_char_at(cs, i, true);
                typ.push(e);
                adv = m;
            }
        } else if stat == 2 {
            if c == '=' {
                stat = 3;
                adv = 1;
            } else {
                let (e, m) = read_char_at(cs, i, true);
                key.push(e);
                adv = m;
            }
        } else {
            if c == ']' {
                let ks = string_from_chars(key.as_slice());
                let vs = string_from_chars(val.as_slice());
                params_set(&mut params, ks, vs);
                let ts = string_from_chars(typ.as_slice());
                let ps = params;
                let ghost psv = pairs_view(ps@);
                out.push(CqSegment::Code(ts, ps));
                params = Vec::new();
                key = Vec::new();
                val = Vec::new();
                text = Vec::new();
                typ = Vec::new();
                stat = 0;
                adv = 1;
                proof {
                    assert(segs_view(out@) =~= st.out.push(
                        CqSegV::Code(st.typ, params_insert(st.params, st.key, st.val)),
                    ));
                    assert(pairs_view(params@) =~= Seq::<(Seq<char>, Seq<char>)>::empty());
                }
            } else if c == ',' {
                let ks = string_from_chars(key.as_slice());
                let vs = string_from_chars(val.as_slice());
                params_set(&mut params, ks, vs);
                key = Vec::new();
                val = Vec::new();
                stat = 2;
                adv = 1;
            } else {
                let (e, m) = read_char_at(cs, i, true);
                val.push(e);
                adv = m;
            }
        }
        proof {
            assert(read_state_of(stat, text@, typ@, key@, val@, params@, out@) == step.0);
            assert(adv == step.1);
            assert(cs@.skip(i + adv) =~= rest.skip(step.1));
        }
        i = i + adv;
    }
    let ghost st = read_state_of(stat, text@, typ@, key@, val@, params@, out@);
    assert(cs@.skip(i as int) =~= Seq::<char>::empty());
    if text.len() != 0 {
        let t = string_from_chars(text.as_slice());
        out.push(CqSegment::Text(t));
    }
    assert(segs_view(out@) =~= flush_text(st.out, st.text));
    out
}

pub open spec fn cq_open_seq() -> Seq<char> {
    seq!['[', 'C', 'Q', ':']
}

/// One parameter as it stands in a CQ code: `,key=value` with the value escaped.
pub open spec fn param_piece(p: (Seq<char>, Seq<char>)) -> Seq<char> {
    seq![','] + p.0 + seq!['='] + cq_params_encoded(p.1)
}

pub open spec fn params_text(ps: Seq<(Seq<char>, Seq<char>)>) -> Seq<char>
    decreases ps.len(),
{
    if ps.len() == 0 {
        Seq::empty()
    } else {
        param_piece(ps[0]) + params_text(ps.drop_first())
    }
}

/// A CQ code as text: `[CQ:kind,key=value,...]`, or `[CQ:kind]` without parameters.
pub open spec fn code_text(kind: Seq<char>, ps: Seq<(Seq<char>, Seq<char>)>) -> Seq<char> {
    cq_open_seq() + kind + params_text(ps) + seq![']']
}

pub open spec fn seg_text(seg: CqSegV) -> Seq<char> {
    match seg {
        CqSegV::Text(t) => cq_text_encoded(t),
        CqSegV::Code(k, ps) => code_text(k, ps),
    }
}

/// A message as one CQ string: its pieces written one after another.
pub open spec fn segs_text(segs: Seq<CqSegV>) -> Seq<char>
    decreases segs.len(),
{
    if segs.len() == 0 {
        Seq::empty()
    } else {
        seg_text(segs[0]) + segs_text(segs.drop_first())
    }
}

/// Why a message could not be turned into a CQ string, or a CQ string into
/// message pieces.
#[derive(Debug, Clone, Copy, PartialEq, Eq, Structural)]
pub enum CqError {
    /// The message to read is not a string.
    NotString,
    /// The message is neither a string nor an array.
    NotArray,
    /// A piece has no `type`.
    MissingType,
    /// A piece's `type` is not a string.
    TypeNotStr,
    /// A piece has no `data`.
    MissingData,
    /// A text piece's `data` has no `text`.
    MissingText,
    /// A text piece's `text` is not a string.
    TextNotStr,
    /// A parameter's value is not a string.
    ParamNotStr,
}

/// The text `acc` before whatever `r` holds; an error stays an error.
pub open spec fn then_text(acc: Seq<char>, r: Result<Seq<char>, CqError>) -> Result<
    Seq<char>,
    CqError,
> {
    match r {
        Ok(t) => Ok(acc + t),
        Err(e) => Err(e),
    }
}

proof fn lemma_then_text_assoc(a: Seq<char>, p: Seq<char>, r: Result<Seq<char>, CqError>)
    ensures
        then_text(a, then_text(p, r)) == then_text(a + p, r),
{
    match r {
        Ok(t) => {
            assert(a + (p + t) =~= (a + p) + t);
        },
        Err(_) => {},
    }
}

pub open spec fn field_piece(f: (Seq<char>, JsonV)) -> Result<Seq<char>, CqError> {
    match f.1.as_str() {
        Some(v) => Ok(param_piece((f.0, v))),
        None => Err(CqError::ParamNotStr),
    }
}

/// The members of a CQ code's `data` as parameters: the first member whose
/// value is not a string is an error.
pub open spec fn fields_text(fs: Seq<(Seq<char>, JsonV)>) -> Result<Seq<char>, CqError>
    decreases fs.len(),
{
    if fs.len() == 0 {
        Ok(Seq::empty())
    } else {
        match field_piece(fs[0]) {
            Err(e) => Err(e),
            Ok(p) => then_text(p, fields_text(fs.drop_first())),
        }
    }
}

/// One element of a message array as CQ text.
pub open spec fn item_text(item: JsonV) -> Result<Seq<char>, CqError> {
    match item.get("type"@) {
        None => Err(CqError::MissingType),
        Some(t) => match t.as_str() {
            None => Err(CqError::TypeNotStr),
            Some(tp) => match item.get("data"@) {
                None => Err(CqError::MissingData),
                Some(d) => if tp == "text"@ {
                    match d.get("text"@) {
                        None => Err(CqError::MissingText),
                        Some(x) => match x.as_str() {
                            None => Err(CqError::TextNotStr),
                            Some(txt) => Ok(cq_text_encoded(txt)),
                        },
                    }
                } else {
                    match d {
                        JsonV::Object(fs) => match fields_text(fs) {
                            Err(e) => Err(e),
                            Ok(p) => Ok(cq_open_seq() + tp + p + seq![']']),
                        },
                        _ => Ok(cq_open_seq() + tp + seq![']']),
                    }
                },
            },
        },
    }
}

pub open spec fn items_text(items: Seq<JsonV>) -> Result<Seq<char>, CqError>
    decreases items.len(),
{
    if items.len() == 0 {
        Ok(Seq::empty())
    } else {
        match item_text(items[0]) {
            Err(e) => Err(e),
            Ok(p) => then_text(p, items_text(items.drop_first())),
        }
    }
}

/// A OneBot message as a CQ string: a string message is itself; an array
/// message is its elements written one after another; the first element
/// that is not well formed decides the error.
pub open spec fn arr_to_cq_spec(msg: JsonV) -> Result<Seq<char>, CqError> {
    match msg {
        JsonV::Str(s) => Ok(s),
        JsonV::Array(items) => items_text(items),
        _ => Err(CqError::NotArray),
    }
}

/// Whether a message element can be written as CQ text: a string `type`,
/// a `data`; a text element's `data.text` is a string, and every member of
/// another element's `data` object is a string.
pub open spec fn item_ok(item: JsonV) -> bool {
    match item.get("type"@) {
        Some(JsonV::Str(tp)) => match item.get("data"@) {
            Some(d) => if tp == "text"@ {
                d.get("text"@) matches Some(JsonV::Str(_))
            } else {
                d matches JsonV::Object(fs) ==> forall|j: int|
                    0 <= j < fs.len() ==> (#[trigger] fs[j]).1 is Str
            },
            None => false,
        },
        _ => false,
    }
}

proof fn lemma_fields_text_ok(fs: Seq<(Seq<char>, JsonV)>)
    ensures
        fields_text(fs) is Ok <==> forall|j: int| 0 <= j < fs.len() ==> (#[trigger] fs[j]).1 is Str,
    decreases fs.len(),
{
    if fs.len() > 0 {
        let rest = fs.drop_first();
        lemma_fields_text_ok(rest);
        assert forall|j: int| 0 < j < fs.len() implies #[trigger] fs[j] == rest[j - 1] by {}
        if forall|j: int| 0 <= j < rest.len() ==> (#[trigger] rest[j]).1 is Str {
            if fs[0].1 is Str {
                assert forall|j: int| 0 <= j < fs.len() implies (#[trigger] fs[j]).1 is Str by {
                    if j > 0 {
                        assert(rest[j - 1].1 is Str);
                    }
                }
            }
        } else {
            let k = choose|k: int| 0 <= k < rest.len() && !((#[trigger] rest[k]).1 is Str);
            assert(!(fs[k + 1].1 is Str));
        }
    }
}

proof fn lemma_item_text_ok(item: JsonV)
    ensures
        item_text(item) is Ok <==> item_ok(item),
{
    if let Some(JsonV::Str(tp)) = item.get("type"@) {
        if let Some(d) = item.get("data"@) {
            if tp != "text"@ {
                if let JsonV::Object(fs) = d {
                    lemma_fields_text_ok(fs);
                }
            }
        }
    }
}

/// What `arr_to_cq_str` does with every kind of input: a string message is
/// its own CQ string; a message that is neither a string nor an array is
/// refused; an array message is written exactly when every element is
/// well formed (`item_ok`), so an element without a string `type` or
/// without `data`, a text element without a string `data.text`, or another
/// element with a `data` member that is not a string, is refused.
pub proof fn law_arr_to_cq_cases(msg: JsonV)
    ensures
        msg matches JsonV::Str(s) ==> arr_to_cq_spec(msg) == Ok::<Seq<char>, CqError>(s),
        !(msg is Str) && !(msg is Array) ==> arr_to_cq_spec(msg) == Err::<Seq<char>, CqError>(
            CqError::NotArray,
        ),
        msg matches JsonV::Array(items) ==> (arr_to_cq_spec(msg) is Ok <==> forall|i: int|
            0 <= i < items.len() ==> #[trigger] item_ok(items[i])),
{
    if let JsonV::Array(items) = msg {
        law_cq_string_needs_valid_items(items);
        if arr_to_cq_spec(msg) is Ok {
            assert forall|i: int| 0 <= i < items.len() implies #[trigger] item_ok(items[i]) by {
                lemma_item_text_ok(items[i]);
                assert(item_text(items[i]) is Ok);
            }
        } else {
            let k = choose|k: int| 0 <= k < items.len() && !(#[trigger] item_text(items[k]) is Ok);
            lemma_item_text_ok(items[k]);
            assert(!item_ok(items[k]));
        }
    }
}

/// A message array becomes a CQ string exactly when every element is well
/// formed (`item_text` succeeds on it); otherwise the first element that is
/// not decides the error.
pub proof fn law_cq_string_needs_valid_items(items: Seq<JsonV>)
    ensures
        arr_to_cq_spec(JsonV::Array(items)) is Ok <==> forall|i: int|
            0 <= i < items.len() ==> #[trigger] item_text(items[i]) is Ok,
        forall|i: int|
            0 <= i < items.len() && #[trigger] item_text(items[i]) is Err && (forall|j: int|
                0 <= j < i ==> item_text(items[j]) is Ok) ==> arr_to_cq_spec(JsonV::Array(items))
                == item_text(items[i]),
    decreases items.len(),
{
    if items.len() > 0 {
        let rest = items.drop_first();
        law_cq_string_needs_valid_items(rest);
        assert forall|i: int| 0 < i < items.len() implies #[trigger] item_text(items[i]) == item_text(
            rest[i - 1],
        ) by {}
        if item_text(items[0]) is Ok {
            assert forall|i: int|
                0 <= i < items.len() && #[trigger] item_text(items[i]) is Err && (forall|j: int|
                    0 <= j < i ==> item_text(items[j]) is Ok) implies arr_to_cq_spec(
                JsonV::Array(items),
            ) == item_text(items[i]) by {
                assert(i > 0);
                assert(item_text(rest[i - 1]) is Err);
                assert forall|j: int| 0 <= j < i - 1 implies item_text(rest[j]) is Ok by {
                    assert(item_text(items[j + 1]) is Ok);
                }
            }
            if forall|i: int| 0 <= i < rest.len() ==> #[trigger] item_text(rest[i]) is Ok {
                assert forall|i: int| 0 <= i < items.len() implies #[trigger] item_text(items[i]) is Ok by {
                    if i > 0 {
                        assert(item_text(rest[i - 1]) is Ok);
                    }
                }
            } else {
                let k = choose|k: int| 0 <= k < rest.len() && !(#[trigger] item_text(rest[k]) is Ok);
                assert(!(item_text(items[k + 1]) is Ok));
            }
        }
    }
}

fn push_param_piece(out: &mut String, k: &str, v: &str)
    ensures
        final(out)@ == old(out)@ + param_piece((k@, v@)),
{
    let ghost start = out@;
    push_char(out, ',');
    push_str(out, k);
    push_char(out, '=');
    let ev = cq_params_encode(v);
    push_str(out, ev.as_str());
    assert(out@ =~= start + param_piece((k@, v@)));
}

fn fields_to_cq(fields: &Vec<(String, Json)>, out: &mut String) -> (r: Result<(), CqError>)
    ensures
        match r {
            Ok(_) => fields_text(json_fields_view(fields@)) == Ok::<Seq<char>, CqError>(
                final(out)@.skip(old(out)@.len() as int),
            ) && final(out)@.len() >= old(out)@.len() && final(out)@.take(old(out)@.len() as int)
                == old(out)@,
            Err(e) => fields_text(json_fields_view(fields@)) == Err::<Seq<char>, CqError>(e),
        },
{
    let ghost fv = json_fields_view(fields@);
    let ghost start = out@;
    proof {
        lemma_fields_view(fields@);
        assert(fv.skip(0) =~= fv);
        assert(out@.skip(start.len() as int) =~= Seq::<char>::empty());
    }
    let n = fields.len();
    let mut i: usize = 0;
    while i < n
        invariant
            n == fields@.len(),
            i <= n,
            fv == json_fields_view(fields@),
            fv.len() == n,
            forall|j: int| 0 <= j < n ==> #[trigger] fv[j] == (fields@[j].0@, json_view(fields@[j].1)),
            out@.len() >= start.len(),
            out@.take(start.len() as int) == start,
            fields_text(fv) == then_text(out@.skip(start.len() as int), fields_text(fv.skip(i as int))),
        decreases n - i,
    {
        let ghost rest = fv.skip(i as int);
        proof {
            assert(rest[0] == fv[i as int]);
            assert(rest.drop_first() =~= fv.skip(i + 1));
        }
        let ghost before = out@;
        match fields[i].1.as_str() {
            Some(v) => {
                push_param_piece(out, fields[i].0.as_str(), v);
                proof {
                    assert(out@.skip(start.len() as int) =~= before.skip(start.len() as int)
                        + param_piece((fields@[i as int].0@, v@)));
                    assert(out@.take(start.len() as int) =~= before.take(start.len() as int));
                    lemma_then_text_assoc(
                        before.skip(start.len() as int),
                        param_piece((fields@[i as int].0@, v@)),
                        fields_text(fv.skip(i + 1)),
                    );
                }
            },
            None => {
                return Err(CqError::ParamNotStr);
            },
        }
        i = i + 1;
    }
    assert(fv.skip(n as int) =~= Seq::<(Seq<char>, JsonV)>::empty());
    Ok(())
}

fn item_to_cq(item: &Json, out: &mut String) -> (r: Result<(), CqError>)
    ensures
        match r {
            Ok(_) => item_text(item@) == Ok::<Seq<char>, CqError>(
                final(out)@.skip(old(out)@.len() as int),
            ) && final(out)@.len() >= old(out)@.len() && final(out)@.take(old(out)@.len() as int)
                == old(out)@,
            Err(e) => item_text(item@) == Err::<Seq<char>, CqError>(e),
        },
{
    let ghost start = out@;
    let tp_json = match item.get("type") {
        Some(t) => t,
        None => return Err(CqError::MissingType),
    };
    let tp = match tp_json.as_str() {
        Some(t) => t,
        None => return Err(CqError::TypeNotStr),
    };
    let nodes = match item.get("data") {
        Some(d) => d,
        None => return Err(CqError::MissingData),
    };
    if crate::text::str_eq(tp, "text") {
        let t = match nodes.get("text") {
            Some(t) => t,
            None => return Err(CqError::MissingText),
        };
        let temp = match t.as_str() {
            Some(x) => x,
            None => return Err(CqError::TextNotStr),
        };
        let enc = cq_text_encode(temp);
        push_str(out, enc.as_str());
        assert(out@.skip(start.len() as int) =~= cq_text_encoded(temp@));
        assert(out@.take(start.len() as int) =~= start);
        Ok(())
    } else {
        push_char(out, '[');
        push_char(out, 'C');
        push_char(out, 'Q');
        push_char(out, ':');
        push_str(out, tp);
        let ghost mid = out@;
        assert(mid =~= start + cq_open_seq() + tp@);
        match nodes.as_object() {
            Some(fields) => {
                match fields_to_cq(fields, out) {
                    Ok(_) => {},
                    Err(e) => return Err(e),
                }
                let ghost p = out@.skip(mid.len() as int);
                let ghost prior = out@;
                assert(prior =~= prior.take(mid.len() as int) + p);
                assert(prior =~= mid + p);
                push_char(out, ']');
                assert(out@.skip(start.len() as int) =~= cq_open_seq() + tp@ + p + seq![']']);
                assert(out@.take(start.len() as int) =~= start);
                assert(out@.take(mid.len() as int) == mid);
            },
            None => {
                push_char(out, ']');
                assert(out@.skip(start.len() as int) =~= cq_open_seq() + tp@ + seq![']']);
                assert(out@.take(start.len() as int) =~= start);
            },
        }
        Ok(())
    }
}

/// Writes a OneBot message as a CQ string: a string message as it is, each
/// element of an array message in turn (text escaped, other pieces as CQ
/// codes with escaped parameter values).
pub fn arr_to_cq_str(msg_json: &Json) -> (r: Result<String, CqError>)
    ensures
        match r {
            Ok(s) => arr_to_cq_spec(msg_json@) == Ok::<Seq<char>, CqError>(s@),
            Err(e) => arr_to_cq_spec(msg_json@) == Err::<Seq<char>, CqError>(e),
        },
{
    if let Some(s) = msg_json.as_str() {
        return Ok(crate::text::to_string(s));
    }
    let items = match msg_json.as_array() {
        Some(v) => v,
        None => return Err(CqError::NotArray),
    };
    let ghost iv = json_seq_view(items@);
    proof {
        lemma_seq_view(items@);
        assert(iv.skip(0) =~= iv);
    }
    let mut ret = String::new();
    let n = items.len();
    let mut i: usize = 0;
    assert(ret@ =~= Seq::<char>::empty());
    while i < n
        invariant
            n == items@.len(),
            i <= n,
            iv == json_seq_view(items@),
            iv.len() == n,
            forall|j: int| 0 <= j < n ==> #[trigger] iv[j] == json_view(items@[j]),
            arr_to_cq_spec(msg_json@) == items_text(iv),
            items_text(iv) == then_text(ret@, items_text(iv.skip(i as int))),
        decreases n - i,
    {
        let ghost rest = iv.skip(i as int);
        proof {
            assert(rest[0] == iv[i as int]);
            assert(rest.drop_first() =~= iv.skip(i + 1));
        }
        let ghost before = ret@;
        match item_to_cq(&items[i], &mut ret) {
            Ok(_) => {
                proof {
                    let p = ret@.skip(before.len() as int);
                    assert(ret@ =~= before + p);
                    lemma_then_text_assoc(before, p, items_text(iv.skip(i + 1)));
                }
            },
            Err(e) => return Err(e),
        }
        i = i + 1;
    }
    assert(iv.skip(n as int) =~= Seq::<JsonV>::empty());
    assert(ret@ + Seq::<char>::empty() =~= ret@);
    Ok(ret)
}

pub open spec fn param_json(p: (Seq<char>, Seq<char>)) -> (Seq<char>, JsonV) {
    (p.0, JsonV::Str(p.1))
}

/// A message piece as a OneBot message segment: `{"type": ..., "data": {...}}`;
/// text is `{"type":"text","data":{"text": ...}}`, a CQ code's parameters
/// are the string members of `data`.
pub open spec fn seg_json(seg: CqSegV) -> JsonV {
    match seg {
        CqSegV::Text(t) => JsonV::Object(
            seq![
                ("type"@, JsonV::Str("text"@)),
                ("data"@, JsonV::Object(seq![("text"@, JsonV::Str(t))])),
            ],
        ),
        CqSegV::Code(k, ps) => JsonV::Object(
            seq![
                ("type"@, JsonV::Str(k)),
                ("data"@, JsonV::Object(ps.map_values(|p: (Seq<char>, Seq<char>)| param_json(p)))),
            ],
        ),
    }
}

/// A message as a OneBot message array.
pub open spec fn segs_json(segs: Seq<CqSegV>) -> JsonV {
    JsonV::Array(segs.map_values(|s: CqSegV| seg_json(s)))
}

fn seg_to_json(seg: &CqSegment) -> (r: Json)
    ensures
        r@ == seg_json(seg@),
{
    match seg {
        CqSegment::Text(t) => {
            let mut data: Vec<(String, Json)> = Vec::new();
            push_field(&mut data, "text", Json::str_of(t.as_str()));
            let mut node: Vec<(String, Json)> = Vec::new();
            push_field(&mut node, "type", Json::str_of("text"));
            let ghost dv = json_fields_view(data@);
            push_field(&mut node, "data", Json::Object(data));
            assert(dv =~= seq![("text"@, JsonV::Str(t@))]);
            assert(json_fields_view(node@) =~= seq![
                ("type"@, JsonV::Str("text"@)),
                ("data"@, JsonV::Object(seq![("text"@, JsonV::Str(t@))])),
            ]);
            Json::Object(node)
        },
        CqSegment::Code(k, ps) => {
            let mut data: Vec<(String, Json)> = Vec::new();
            let n = ps.len();
            let mut i: usize = 0;
            let ghost pv = pairs_view(ps@);
            while i < n
                invariant
                    n == ps@.len(),
                    i <= n,
                    pv == pairs_view(ps@),
                    json_fields_view(data@) == pv.take(i as int).map_values(
                        |p: (Seq<char>, Seq<char>)| param_json(p),
                    ),
                decreases n - i,
            {
                push_field(&mut data, ps[i].0.as_str(), Json::str_of(ps[i].1.as_str()));
                proof {
                    assert(pv.take(i + 1) =~= pv.take(i as int).push(pv[i as int]));
                    assert(pv.take(i + 1).map_values(|p: (Seq<char>, Seq<char>)| param_json(p))
                        =~= pv.take(i as int).map_values(
                        |p: (Seq<char>, Seq<char>)| param_json(p),
                    ).push(param_json(pv[i as int])));
                }
                i = i + 1;
            }
            assert(pv.take(n as int) =~= pv);
            let mut node: Vec<(String, Json)> = Vec::new();
            push_field(&mut node, "type", Json::str_of(k.as_str()));
            let ghost dv = json_fields_view(data@);
            push_field(&mut node, "data", Json::Object(data));
            assert(json_fields_view(node@) =~= seq![
                ("type"@, JsonV::Str(k@)),
                ("data"@, JsonV::Object(dv)),
            ]);
            Json::Object(node)
        },
    }
}

/// The message pieces as a OneBot message array.
pub fn segs_to_json(segs: &Vec<CqSegment>) -> (r: Json)
    ensures
        r@ == segs_json(segs_view(segs@)),
{
    let mut arr: Vec<Json> = Vec::new();
    let n = segs.len();
    let mut i: usize = 0;
    let ghost sv = segs_view(segs@);
    while i < n
        invariant
            n == segs@.len(),
            i <= n,
            sv == segs_view(segs@),
            json_seq_view(arr@) == sv.take(i as int).map_values(|s: CqSegV| seg_json(s)),
        decreases n - i,
    {
        let j = seg_to_json(&segs[i]);
        let ghost old_arr = arr@;
        arr.push(j);
        proof {
            assert(arr@.drop_last() =~= old_arr);
            assert(sv[i as int] == segs@[i as int]@);
            assert(sv.take(i + 1) =~= sv.take(i as int).push(sv[i as int]));
            assert(sv.take(i + 1).map_values(|s: CqSegV| seg_json(s)) =~= sv.take(
                i as int,
            ).map_values(|s: CqSegV| seg_json(s)).push(seg_json(sv[i as int])));
            assert(json_seq_view(arr@) == json_seq_view(arr@.drop_last()).push(json_view(
                arr@.last(),
            )));
        }
        i = i + 1;
    }
    assert(sv.take(n as int) =~= sv);
    Json::Array(arr)
}

/// What `str_msg_to_arr` gives for a message: the pieces of a string
/// message as a message array; anything else is an error.
pub open spec fn str_msg_to_arr_spec(js: JsonV) -> Result<JsonV, CqError> {
    match js {
        JsonV::Str(s) => Ok(segs_json(cq_parse(s))),
        _ => Err(CqError::NotString),
    }
}

/// Reads a CQ string message into a OneBot message array: text between CQ
/// codes is unescaped, each CQ code becomes a segment with its parameters;
/// a CQ code left open at the end is dropped.
pub fn str_msg_to_arr(js: &Json) -> (r: Result<Json, CqError>)
    ensures
        match r {
            Ok(j) => str_msg_to_arr_spec(js@) == Ok::<JsonV, CqError>(j@),
            Err(e) => str_msg_to_arr_spec(js@) == Err::<JsonV, CqError>(e),
        },
{
    let s = match js.as_str() {
        Some(s) => s,
        None => return Err(CqError::NotString),
    };
    let cqstr = chars_of(s);
    let segs = parse_cq_chars(&cqstr);
    Ok(segs_to_json(&segs))
}

pub open spec fn st0(text: Seq<char>, out: Seq<CqSegV>) -> CqReadState {
    CqReadState {
        stat: 0,
        text,
        typ: Seq::empty(),
        key: Seq::empty(),
        val: Seq::empty(),
        params: Seq::empty(),
        out,
    }
}

proof fn lemma_entities_differ()
    ensures
        amp_entity() != lbracket_entity(),
        amp_entity() != rbracket_entity(),
        lbracket_entity() != rbracket_entity(),
        comma_entity() != lbracket_entity(),
        comma_entity() != rbracket_entity(),
        comma_entity() != amp_entity(),
{
    assert(amp_entity()[1] != lbracket_entity()[1]);
    assert(amp_entity()[1] != rbracket_entity()[1]);
    assert(lbracket_entity()[3] != rbracket_entity()[3]);
    assert(comma_entity()[2] != lbracket_entity()[2]);
    assert(comma_entity()[2] != rbracket_entity()[2]);
    assert(comma_entity()[1] != amp_entity()[1]);
}

/// Reading one escaped character: the escape of `c` followed by `r` reads as
/// `c` and leaves `r`.
proof fn lemma_read_escape(c: char, r: Seq<char>, comma: bool)
    ensures
        c != '&' && c != '[' && c != ']' && (c != ',' || !comma) ==> read_char(
            seq![c] + r,
            comma,
        ) == (c, 1int),
        read_char(amp_entity() + r, comma) == ('&', 5int),
        read_char(lbracket_entity() + r, comma) == ('[', 5int),
        read_char(rbracket_entity() + r, comma) == (']', 5int),
        comma ==> read_char(comma_entity() + r, comma) == (',', 5int),
{
    lemma_entities_differ();
    assert((amp_entity() + r).take(5) =~= amp_entity());
    assert((lbracket_entity() + r).take(5) =~= lbracket_entity());
    assert((rbracket_entity() + r).take(5) =~= rbracket_entity());
    assert((comma_entity() + r).take(5) =~= comma_entity());
    assert((seq![c] + r)[0] == c);
    assert((amp_entity() + r)[0] == '&');
    assert((lbracket_entity() + r)[0] == '&');
    assert((rbracket_entity() + r)[0] == '&');
    assert((comma_entity() + r)[0] == '&');
}

/// Plain text, escaped, reads back as itself into the text being gathered.
pub proof fn lemma_run_text(st: CqReadState, t: Seq<char>, r: Seq<char>)
    requires
        st.stat == 0,
    ensures
        cq_run(st, cq_text_encoded(t) + r) == cq_run(CqReadState { text: st.text + t, ..st }, r),
    decreases t.len(),
{
    let f = |c: char| text_escape(c);
    if t.len() == 0 {
        assert(cq_text_encoded(t) =~= Seq::<char>::empty());
        assert(cq_text_encoded(t) + r =~= r);
        assert(st.text + t =~= st.text);
        assert(CqReadState { text: st.text + t, ..st } == st);
    } else {
        lemma_escape_front(t, f);
        let c = t[0];
        let tail = t.drop_first();
        let piece = text_escape(c);
        let input = cq_text_encoded(t) + r;
        assert(input =~= piece + (cq_text_encoded(tail) + r));
        lemma_read_escape(c, cq_text_encoded(tail) + r, false);
        assert(input[0] == piece[0]);
        assert(input[0] != '[') by {
            if c == '&' || c == '[' || c == ']' {
                assert(piece[0] == '&');
            } else {
                assert(piece =~= seq![c]);
            }
        }
        if c != '&' && c != '[' && c != ']' {
            assert(piece =~= seq![c]);
        }
        let st2 = CqReadState { text: st.text.push(c), ..st };
        assert(cq_step(st, input) == (st2, piece.len() as int));
        assert(input.skip(piece.len() as int) =~= cq_text_encoded(tail) + r);
        lemma_run_text(st2, tail, r);
        assert(st2.text + tail =~= st.text + t);
    }
}

/// A CQ parameter value, escaped, reads back as itself into the value
/// being gathered.
pub proof fn lemma_run_value(st: CqReadState, v: Seq<char>, r: Seq<char>)
    requires
        st.stat == 3,
    ensures
        cq_run(st, cq_params_encoded(v) + r) == cq_run(CqReadState { val: st.val + v, ..st }, r),
    decreases v.len(),
{
    let f = |c: char| param_escape(c);
    if v.len() == 0 {
        assert(cq_params_encoded(v) =~= Seq::<char>::empty());
        assert(cq_params_encoded(v) + r =~= r);
        assert(st.val + v =~= st.val);
        assert(CqReadState { val: st.val + v, ..st } == st);
    } else {
        lemma_escape_front(v, f);
        let c = v[0];
        let tail = v.drop_first();
        let piece = param_escape(c);
        let input = cq_params_encoded(v) + r;
        assert(input =~= piece + (cq_params_encoded(tail) + r));
        lemma_read_escape(c, cq_params_encoded(tail) + r, true);
        assert(input[0] == piece[0]);
        if c == '&' || c == '[' || c == ']' || c == ',' {
            assert(piece[0] == '&');
        } else {
            assert(piece =~= seq![c]);
        }
        let st2 = CqReadState { val: st.val.push(c), ..st };
        assert(cq_step(st, input) == (st2, piece.len() as int));
        assert(input.skip(piece.len() as int) =~= cq_params_encoded(tail) + r);
        lemma_run_value(st2, tail, r);
        assert(st2.val + tail =~= st.val + v);
    }
}

/// A CQ type without `,` or `&` reads as itself.
pub proof fn lemma_run_type(st: CqReadState, k: Seq<char>, r: Seq<char>)
    requires
        st.stat == 1,
        forall|i: int| 0 <= i < k.len() ==> k[i] != ',' && k[i] != '&',
    ensures
        cq_run(st, k + r) == cq_run(CqReadState { typ: st.typ + k, ..st }, r),
    decreases k.len(),
{
    if k.len() == 0 {
        assert(k + r =~= r);
        assert(st.typ + k =~= st.typ);
        assert(CqReadState { typ: st.typ + k, ..st } == st);
    } else {
        let input = k + r;
        let tail = k.drop_first();
        assert(input =~= seq![k[0]] + (tail + r));
        assert(input[0] == k[0]);
        let st2 = CqReadState { typ: st.typ.push(k[0]), ..st };
        assert(cq_step(st, input) == (st2, 1int));
        assert(input.skip(1) =~= tail + r);
        lemma_run_type(st2, tail, r);
        assert(st2.typ + tail =~= st.typ + k);
    }
}

/// A parameter name without `=` or `&` reads as itself.
pub proof fn lemma_run_key(st: CqReadState, k: Seq<char>, r: Seq<char>)
    requires
        st.stat == 2,
        forall|i: int| 0 <= i < k.len() ==> k[i] != '=' && k[i] != '&',
    ensures
        cq_run(st, k + r) == cq_run(CqReadState { key: st.key + k, ..st }, r),
    decreases k.len(),
{
    if k.len() == 0 {
        assert(k + r =~= r);
        assert(st.key + k =~= st.key);
        assert(CqReadState { key: st.key + k, ..st } == st);
    } else {
        let input = k + r;
        let tail = k.drop_first();
        assert(input =~= seq![k[0]] + (tail + r));
        assert(input[0] == k[0]);
        let st2 = CqReadState { key: st.key.push(k[0]), ..st };
        assert(cq_step(st, input) == (st2, 1int));
        assert(input.skip(1) =~= tail + r);
        lemma_run_key(st2, tail, r);
        assert(st2.key + tail =~= st.key + k);
    }
}

/// Setting each parameter of `qs` in turn, starting from `ps`.
pub open spec fn params_fold(ps: Seq<(Seq<char>, Seq<char>)>, qs: Seq<(Seq<char>, Seq<char>)>) -> Seq<
    (Seq<char>, Seq<char>),
>
    decreases qs.len(),
{
    if qs.len() == 0 {
        ps
    } else {
        params_fold(params_insert(ps, qs[0].0, qs[0].1), qs.drop_first())
    }
}

pub open spec fn keys_unique(ps: Seq<(Seq<char>, Seq<char>)>) -> bool {
    forall|i: int, j: int| 0 <= i < j < ps.len() ==> ps[i].0 != ps[j].0
}

proof fn lemma_params_fold_fresh(ps: Seq<(Seq<char>, Seq<char>)>, qs: Seq<(Seq<char>, Seq<char>)>)
    requires
        keys_unique(ps + qs),
    ensures
        params_fold(ps, qs) == ps + qs,
    decreases qs.len(),
{
    if qs.len() == 0 {
        assert(ps + qs =~= ps);
    } else {
        let k = qs[0].0;
        assert forall|j: int| 0 <= j < ps.len() implies ps[j].0 != k by {
            assert((ps + qs)[j] == ps[j]);
            assert((ps + qs)[ps.len() as int] == qs[0]);
        }
        lemma_key_pos(ps, k, ps.len() as int);
        let ps2 = ps.push(qs[0]);
        assert(params_insert(ps, qs[0].0, qs[0].1) == ps2) by {
            assert(ps.push((qs[0].0, qs[0].1)) =~= ps2);
        }
        assert(ps2 + qs.drop_first() =~= ps + qs);
        lemma_params_fold_fresh(ps2, qs.drop_first());
    }
}

pub open spec fn st3(
    typ: Seq<char>,
    key: Seq<char>,
    val: Seq<char>,
    params: Seq<(Seq<char>, Seq<char>)>,
    out: Seq<CqSegV>,
) -> CqReadState {
    CqReadState { stat: 3, text: Seq::empty(), typ, key, val, params, out }
}

pub open spec fn key_ok(k: Seq<char>) -> bool {
    forall|i: int| 0 <= i < k.len() ==> k[i] != '=' && k[i] != '&'
}

pub open spec fn kind_ok(k: Seq<char>) -> bool {
    forall|i: int| 0 <= i < k.len() ==> k[i] != ',' && k[i] != '&'
}

/// One parameter `,key=value` read from the value part of the one before:
/// the one before is set, and the new one is pending.
proof fn lemma_run_next_param(
    typ: Seq<char>,
    kk: Seq<char>,
    vv: Seq<char>,
    ps: Seq<(Seq<char>, Seq<char>)>,
    out: Seq<CqSegV>,
    q: (Seq<char>, Seq<char>),
    r: Seq<char>,
)
    requires
        key_ok(q.0),
    ensures
        cq_run(st3(typ, kk, vv, ps, out), param_piece(q) + r) == cq_run(
            st3(typ, q.0, q.1, params_insert(ps, kk, vv), out),
            r,
        ),
{
    let s3 = st3(typ, kk, vv, ps, out);
    let input = param_piece(q) + r;
    assert(input =~= seq![','] + (q.0 + (seq!['='] + (cq_params_encoded(q.1) + r))));
    assert(input[0] == ',');
    let s2 = CqReadState {
        stat: 2,
        key: Seq::empty(),
        val: Seq::empty(),
        params: params_insert(ps, kk, vv),
        ..s3
    };
    assert(cq_step(s3, input) == (s2, 1int));
    assert(input.skip(1) =~= q.0 + (seq!['='] + (cq_params_encoded(q.1) + r)));
    lemma_run_key(s2, q.0, seq!['='] + (cq_params_encoded(q.1) + r));
    let s2k = CqReadState { key: s2.key + q.0, ..s2 };
    assert(s2.key + q.0 =~= q.0);
    let rest2 = seq!['='] + (cq_params_encoded(q.1) + r);
    assert(rest2[0] == '=');
    let s3b = CqReadState { stat: 3, ..s2k };
    assert(cq_step(s2k, rest2) == (s3b, 1int));
    assert(rest2.skip(1) =~= cq_params_encoded(q.1) + r);
    lemma_run_value(s3b, q.1, r);
    assert(s3b.val + q.1 =~= q.1);
    assert(CqReadState { val: s3b.val + q.1, ..s3b } == st3(
        typ,
        q.0,
        q.1,
        params_insert(ps, kk, vv),
        out,
    ));
}

/// The rest of a CQ code's parameters and its `]`, read from the value part
/// of the parameter before: the code is finished with every parameter set.
proof fn lemma_run_params(
    typ: Seq<char>,
    kk: Seq<char>,
    vv: Seq<char>,
    ps: Seq<(Seq<char>, Seq<char>)>,
    out: Seq<CqSegV>,
    qs: Seq<(Seq<char>, Seq<char>)>,
    r: Seq<char>,
)
    requires
        forall|i: int| 0 <= i < qs.len() ==> key_ok(#[trigger] qs[i].0),
    ensures
        cq_run(st3(typ, kk, vv, ps, out), params_text(qs) + seq![']'] + r) == cq_run(
            st0(
                Seq::empty(),
                out.push(CqSegV::Code(typ, params_fold(params_insert(ps, kk, vv), qs))),
            ),
            r,
        ),
    decreases qs.len(),
{
    if qs.len() == 0 {
        let input = params_text(qs) + seq![']'] + r;
        assert(input =~= seq![']'] + r);
        assert(input[0] == ']');
        assert(cq_step(st3(typ, kk, vv, ps, out), input) == (
            st0(Seq::empty(), out.push(CqSegV::Code(typ, params_insert(ps, kk, vv)))),
            1int,
        ));
        assert(input.skip(1) =~= r);
    } else {
        let q = qs[0];
        assert(key_ok(qs[0].0));
        let rest = params_text(qs.drop_first()) + seq![']'] + r;
        assert(params_text(qs) + seq![']'] + r =~= param_piece(q) + rest);
        lemma_run_next_param(typ, kk, vv, ps, out, q, rest);
        assert forall|i: int| 0 <= i < qs.drop_first().len() implies key_ok(
            #[trigger] qs.drop_first()[i].0,
        ) by {
            assert(qs.drop_first()[i] == qs[i + 1]);
        }
        lemma_run_params(
            typ,
            q.0,
            q.1,
            params_insert(ps, kk, vv),
            out,
            qs.drop_first(),
            r,
        );
    }
}

/// The conditions under which a CQ code reads back as itself: its type holds
/// no `,` or `&`, it has parameters, their names hold no `=` or `&` and
/// differ from each other.
pub open spec fn code_ok(k: Seq<char>, ps: Seq<(Seq<char>, Seq<char>)>) -> bool {
    &&& kind_ok(k)
    &&& ps.len() > 0
    &&& forall|i: int| 0 <= i < ps.len() ==> key_ok(#[trigger] ps[i].0)
    &&& keys_unique(ps)
}

/// A CQ code reads back as itself; text gathered before it is finished first.
proof fn lemma_run_code(
    acc: Seq<char>,
    out: Seq<CqSegV>,
    k: Seq<char>,
    ps: Seq<(Seq<char>, Seq<char>)>,
    r: Seq<char>,
)
    requires
        code_ok(k, ps),
    ensures
        cq_run(st0(acc, out), code_text(k, ps) + r) == cq_run(
            st0(Seq::empty(), flush_text(out, acc).push(CqSegV::Code(k, ps))),
            r,
        ),
{
    let input = code_text(k, ps) + r;
    let q = ps[0];
    let tail = ps.drop_first();
    assert(params_text(ps) == param_piece(q) + params_text(tail));
    let after_kind = q.1;
    assert(input =~= cq_open_seq() + (k + (seq![','] + (q.0 + (seq!['='] + (cq_params_encoded(q.1)
        + (params_text(tail) + seq![']'] + r)))))));
    assert(is_cq_open(input));
    let s1 = CqReadState {
        stat: 1,
        text: Seq::empty(),
        out: flush_text(out, acc),
        ..st0(acc, out)
    };
    assert(cq_step(st0(acc, out), input) == (s1, 4int));
    let r1 = k + (seq![','] + (q.0 + (seq!['='] + (cq_params_encoded(q.1) + (params_text(tail)
        + seq![']'] + r)))));
    assert(input.skip(4) =~= r1);
    let r2 = seq![','] + (q.0 + (seq!['='] + (cq_params_encoded(q.1) + (params_text(tail)
        + seq![']'] + r))));
    lemma_run_type(s1, k, r2);
    let s1k = CqReadState { typ: s1.typ + k, ..s1 };
    assert(s1.typ + k =~= k);
    assert(r2[0] == ',');
    let s2 = CqReadState { stat: 2, ..s1k };
    assert(cq_step(s1k, r2) == (s2, 1int));
    let r3 = q.0 + (seq!['='] + (cq_params_encoded(q.1) + (params_text(tail) + seq![']'] + r)));
    assert(r2.skip(1) =~= r3);
    assert(key_ok(ps[0].0));
    lemma_run_key(s2, q.0, seq!['='] + (cq_params_encoded(q.1) + (params_text(tail) + seq![']']
        + r)));
    let s2k = CqReadState { key: s2.key + q.0, ..s2 };
    assert(s2.key + q.0 =~= q.0);
    let r4 = seq!['='] + (cq_params_encoded(q.1) + (params_text(tail) + seq![']'] + r));
    assert(r4[0] == '=');
    let s3 = CqReadState { stat: 3, ..s2k };
    assert(cq_step(s2k, r4) == (s3, 1int));
    assert(r4.skip(1) =~= cq_params_encoded(q.1) + (params_text(tail) + seq![']'] + r));
    lemma_run_value(s3, q.1, params_text(tail) + seq![']'] + r);
    assert(s3.val + q.1 =~= q.1);
    let s3v = CqReadState { val: s3.val + q.1, ..s3 };
    assert(s3v == st3(k, q.0, q.1, Seq::empty(), flush_text(out, acc)));
    assert forall|i: int| 0 <= i < tail.len() implies key_ok(#[trigger] tail[i].0) by {
        assert(tail[i] == ps[i + 1]);
    }
    lemma_run_params(k, q.0, q.1, Seq::empty(), flush_text(out, acc), tail, r);
    lemma_key_pos(Seq::<(Seq<char>, Seq<char>)>::empty(), q.0, 0);
    assert(params_insert(Seq::empty(), q.0, q.1) =~= seq![q]);
    assert(seq![q] + tail =~= ps);
    lemma_params_fold_fresh(seq![q], tail);
}

/// A message whose pieces read back as themselves from their CQ string:
/// text pieces are not empty and never next to each other, and every CQ
/// code meets `code_ok`.
pub open spec fn segs_ok(segs: Seq<CqSegV>) -> bool {
    forall|i: int|
        0 <= i < segs.len() ==> match #[trigger] segs[i] {
            CqSegV::Text(t) => t.len() > 0 && (i + 1 < segs.len() ==> segs[i + 1] is Code),
            CqSegV::Code(k, ps) => code_ok(k, ps),
        }
}

proof fn lemma_run_segs(acc: Seq<char>, out: Seq<CqSegV>, segs: Seq<CqSegV>)
    requires
        segs_ok(segs),
        acc.len() > 0 ==> segs.len() == 0 || segs[0] is Code,
    ensures
        cq_run(st0(acc, out), segs_text(segs)) == flush_text(out, acc) + segs,
    decreases segs.len(),
{
    if segs.len() == 0 {
        assert(segs_text(segs) =~= Seq::<char>::empty());
        assert(flush_text(out, acc) + segs =~= flush_text(out, acc));
    } else {
        let rest = segs.drop_first();
        assert(segs_ok(rest)) by {
            assert forall|i: int| 0 <= i < rest.len() implies match #[trigger] rest[i] {
                CqSegV::Text(t) => t.len() > 0 && (i + 1 < rest.len() ==> rest[i + 1] is Code),
                CqSegV::Code(k, ps) => code_ok(k, ps),
            } by {
                assert(rest[i] == segs[i + 1]);
                let _ = segs[i + 1];
                if i + 1 < rest.len() {
                    assert(rest[i + 1] == segs[i + 2]);
                }
            }
        }
        let s0 = segs[0];
        match s0 {
            CqSegV::Text(t) => {
                assert(acc.len() == 0);
                assert(t.len() > 0);
                lemma_run_text(st0(acc, out), t, segs_text(rest));
                assert(acc + t =~= t);
                assert(CqReadState { text: acc + t, ..st0(acc, out) } == st0(t, out));
                if rest.len() > 0 {
                    assert(rest[0] == segs[1]);
                }
                lemma_run_segs(t, out, rest);
                assert(flush_text(out, acc) == out);
                assert(flush_text(out, t) + rest =~= out + segs);
            },
            CqSegV::Code(k, ps) => {
                assert(code_ok(k, ps));
                lemma_run_code(acc, out, k, ps, segs_text(rest));
                let out2 = flush_text(out, acc).push(CqSegV::Code(k, ps));
                lemma_run_segs(Seq::empty(), out2, rest);
                assert(flush_text(out2, Seq::empty()) == out2);
                assert(out2 + rest =~= flush_text(out, acc) + segs);
            },
        }
    }
}

/// Reading a CQ string gives back the pieces it was written from, for every
/// message that meets `segs_ok`.
pub proof fn law_cq_read_after_write(segs: Seq<CqSegV>)
    requires
        segs_ok(segs),
    ensures
        cq_parse(segs_text(segs)) == segs,
{
    lemma_run_segs(Seq::empty(), Seq::empty(), segs);
    assert(st0(Seq::empty(), Seq::empty()) == cq_start());
    assert(Seq::<CqSegV>::empty() + segs =~= segs);
}

proof fn lemma_fields_text_params(ps: Seq<(Seq<char>, Seq<char>)>)
    ensures
        fields_text(ps.map_values(|p: (Seq<char>, Seq<char>)| param_json(p))) == Ok::<
            Seq<char>,
            CqError,
        >(params_text(ps)),
    decreases ps.len(),
{
    let fs = ps.map_values(|p: (Seq<char>, Seq<char>)| param_json(p));
    if ps.len() > 0 {
        lemma_fields_text_params(ps.drop_first());
        assert(fs.drop_first() =~= ps.drop_first().map_values(
            |p: (Seq<char>, Seq<char>)| param_json(p),
        ));
        assert(fs[0] == param_json(ps[0]));
    } else {
        assert(fs.len() == 0);
    }
}

/// No CQ code of the message has the type `text` (which a message array
/// reserves for plain text).
pub open spec fn no_text_kind(segs: Seq<CqSegV>) -> bool {
    forall|i: int| 0 <= i < segs.len() ==> (#[trigger] segs[i] matches CqSegV::Code(k, _) ==> k != "text"@)
}

proof fn lemma_item_text_seg(seg: CqSegV)
    requires
        seg matches CqSegV::Code(k, _) ==> k != "text"@,
    ensures
        item_text(seg_json(seg)) == Ok::<Seq<char>, CqError>(seg_text(seg)),
{
    reveal_strlit("type");
    reveal_strlit("data");
    reveal_strlit("text");
    reveal_with_fuel(crate::json::fields_get, 3);
    assert("type"@[0] != "data"@[0]);
    assert("type"@ != "data"@);
    let j = seg_json(seg);
    match seg {
        CqSegV::Text(t) => {
            let fs = seq![
                ("type"@, JsonV::Str("text"@)),
                ("data"@, JsonV::Object(seq![("text"@, JsonV::Str(t))])),
            ];
            assert(fs.drop_first()[0].0 == "data"@);
            assert(j.get("type"@) == Some(JsonV::Str("text"@)));
            assert(j.get("data"@) == Some(JsonV::Object(seq![("text"@, JsonV::Str(t))])));
        },
        CqSegV::Code(k, ps) => {
            let d = JsonV::Object(ps.map_values(|p: (Seq<char>, Seq<char>)| param_json(p)));
            let fs = seq![("type"@, JsonV::Str(k)), ("data"@, d)];
            assert(fs.drop_first()[0].0 == "data"@);
            assert(j.get("type"@) == Some(JsonV::Str(k)));
            assert(j.get("data"@) == Some(d));
            lemma_fields_text_params(ps);
            assert(cq_open_seq() + k + params_text(ps) + seq![']'] == code_text(k, ps));
        },
    }
}

proof fn lemma_items_text_segs(segs: Seq<CqSegV>)
    requires
        no_text_kind(segs),
    ensures
        items_text(segs.map_values(|s: CqSegV| seg_json(s))) == Ok::<Seq<char>, CqError>(
            segs_text(segs),
        ),
    decreases segs.len(),
{
    let items = segs.map_values(|s: CqSegV| seg_json(s));
    if segs.len() > 0 {
        let rest = segs.drop_first();
        assert(no_text_kind(rest)) by {
            assert forall|i: int| 0 <= i < rest.len() implies (#[trigger] rest[i] matches CqSegV::Code(
                k,
                _,
            ) ==> k != "text"@) by {
                assert(rest[i] == segs[i + 1]);
            }
        }
        lemma_items_text_segs(rest);
        let _ = segs[0];
        lemma_item_text_seg(segs[0]);
        assert(items.drop_first() =~= rest.map_values(|s: CqSegV| seg_json(s)));
        assert(items[0] == seg_json(segs[0]));
    } else {
        assert(items.len() == 0);
    }
}

/// A message array that meets `segs_ok` and gives no CQ code the type
/// `text` survives a trip through its CQ string: `arr_to_cq_str` writes
/// `segs_text`, and `str_msg_to_arr` of that string gives back the array.
pub proof fn law_cq_message_roundtrip(segs: Seq<CqSegV>)
    requires
        segs_ok(segs),
        no_text_kind(segs),
    ensures
        arr_to_cq_spec(segs_json(segs)) == Ok::<Seq<char>, CqError>(segs_text(segs)),
        str_msg_to_arr_spec(JsonV::Str(segs_text(segs))) == Ok::<JsonV, CqError>(segs_json(segs)),
{
    lemma_items_text_segs(segs);
    law_cq_read_after_write(segs);
}

/// The pieces a CQ string reads as are well shaped: text pieces are not
/// empty and are never followed by another text piece, and every CQ code
/// has at least one parameter.
pub open spec fn segs_shape(segs: Seq<CqSegV>) -> bool {
    forall|i: int|
        0 <= i < segs.len() ==> match #[trigger] segs[i] {
            CqSegV::Text(t) => t.len() > 0 && (i + 1 < segs.len() ==> segs[i + 1] is Code),
            CqSegV::Code(_, ps) => ps.len() > 0,
        }
}

pub open spec fn reader_ok(st: CqReadState) -> bool {
    &&& segs_shape(st.out)
    &&& st.stat == 0 ==> st.out.len() == 0 || st.out.last() is Code
    &&& st.stat != 0 ==> st.text.len() == 0
}

proof fn lemma_params_insert_nonempty(ps: Seq<(Seq<char>, Seq<char>)>, k: Seq<char>, v: Seq<char>)
    ensures
        params_insert(ps, k, v).len() > 0,
{
    lemma_key_pos_below(ps, k);
}

proof fn lemma_key_pos_below(ps: Seq<(Seq<char>, Seq<char>)>, k: Seq<char>)
    ensures
        key_pos(ps, k) < ps.len(),
    decreases ps.len(),
{
    if ps.len() > 0 {
        lemma_key_pos_below(ps.drop_first(), k);
    }
}

proof fn lemma_push_keeps_shape(out: Seq<CqSegV>, seg: CqSegV)
    requires
        segs_shape(out),
        seg matches CqSegV::Text(t) ==> t.len() > 0 && (out.len() == 0 || out.last() is Code),
        seg matches CqSegV::Code(_, ps) ==> ps.len() > 0,
    ensures
        segs_shape(out.push(seg)),
{
    let o = out.push(seg);
    assert forall|i: int| 0 <= i < o.len() implies match #[trigger] o[i] {
        CqSegV::Text(t) => t.len() > 0 && (i + 1 < o.len() ==> o[i + 1] is Code),
        CqSegV::Code(_, ps) => ps.len() > 0,
    } by {
        if i < out.len() {
            assert(o[i] == out[i]);
            if i + 1 < out.len() {
                assert(o[i + 1] == out[i + 1]);
            }
            if i + 1 == out.len() && o[i] is Text {
                assert(out.last() == out[i]);
            }
        }
    }
}

proof fn lemma_step_keeps_shape(st: CqReadState, rest: Seq<char>)
    requires
        rest.len() > 0,
        reader_ok(st),
    ensures
        reader_ok(cq_step(st, rest).0),
{
    let c = rest[0];
    if st.stat == 0 {
        if c == '[' && is_cq_open(rest) {
            if st.text.len() != 0 {
                lemma_push_keeps_shape(st.out, CqSegV::Text(st.text));
            }
        }
    } else if st.stat == 3 || (st.stat != 1 && st.stat != 2) {
        if c == ']' {
            lemma_params_insert_nonempty(st.params, st.key, st.val);
            lemma_push_keeps_shape(
                st.out,
                CqSegV::Code(st.typ, params_insert(st.params, st.key, st.val)),
            );
        }
    }
}

proof fn lemma_run_keeps_shape(st: CqReadState, rest: Seq<char>)
    requires
        reader_ok(st),
    ensures
        segs_shape(cq_run(st, rest)),
    decreases rest.len(),
{
    if rest.len() == 0 {
        if st.text.len() != 0 {
            lemma_push_keeps_shape(st.out, CqSegV::Text(st.text));
        }
    } else {
        let (st2, n) = cq_step(st, rest);
        lemma_step_len(st, rest);
        lemma_step_keeps_shape(st, rest);
        lemma_run_keeps_shape(st2, rest.skip(n));
    }
}

/// A OneBot message segment as `str_msg_to_arr` writes it: exactly the
/// members `type` (a string) and `data`, a non-empty object of strings.
pub open spec fn node_shape(n: JsonV) -> bool {
    match n {
        JsonV::Object(fs) => fs.len() == 2 && fs[0].0 == "type"@ && fs[1].0 == "data"@ && match (
            fs[0].1,
            fs[1].1,
        ) {
            (JsonV::Str(_), JsonV::Object(ds)) => ds.len() > 0 && forall|j: int|
                0 <= j < ds.len() ==> (#[trigger] ds[j]).1 is Str,
            _ => false,
        },
        _ => false,
    }
}

/// A text segment holds non-empty text and nothing else:
/// `{"type":"text","data":{"text":t}}` with `t` not empty.
pub open spec fn text_node_ok(n: JsonV) -> bool {
    n.get("type"@) == Some(JsonV::Str("text"@)) ==> match n.get("data"@) {
        Some(JsonV::Object(ds)) => ds.len() == 1 && ds[0].0 == "text"@ && (ds[0].1 matches JsonV::Str(
            t,
        ) && t.len() > 0),
        _ => false,
    }
}

pub open spec fn is_text_node(n: JsonV) -> bool {
    n.get("type"@) == Some(JsonV::Str("text"@))
}

/// `s` holds the opener of a CQ code typed `text`: `[CQ:text,`.
pub open spec fn has_text_opener(s: Seq<char>) -> bool {
    exists|i: int| 0 <= i && i + 9 <= s.len() && #[trigger] s.subrange(i, i + 9) == "[CQ:text,"@
}

pub open spec fn is_prefix_of(t: Seq<char>, p: Seq<char>) -> bool {
    t.len() <= p.len() && p.take(t.len() as int) == t
}

/// What the reader has seen of a code's type, at position `pos` of `s`.
pub open spec fn kind_seen_ok(st: CqReadState, s: Seq<char>, pos: int) -> bool {
    &&& no_text_kind(st.out) || has_text_opener(s)
    &&& st.stat == 0 ==> st.typ.len() == 0
    &&& st.stat != 0 && st.stat != 1 && st.typ == "text"@ ==> has_text_opener(s)
    &&& st.stat == 1 && is_prefix_of(st.typ, "text"@) ==> pos >= 4 + st.typ.len() && s.subrange(
        pos - 4 - st.typ.len(),
        pos,
    ) == "[CQ:"@ + st.typ
}

proof fn lemma_push_no_text_kind(out: Seq<CqSegV>, seg: CqSegV)
    requires
        no_text_kind(out),
        seg matches CqSegV::Code(k, _) ==> k != "text"@,
    ensures
        no_text_kind(out.push(seg)),
{
    let o = out.push(seg);
    assert forall|i: int| 0 <= i < o.len() implies (#[trigger] o[i] matches CqSegV::Code(k, _) ==> k
        != "text"@) by {
        if i < out.len() {
            assert(o[i] == out[i]);
        }
    }
}

proof fn lemma_step_kind_seen(st: CqReadState, s: Seq<char>, pos: int)
    requires
        0 <= pos < s.len(),
        kind_seen_ok(st, s, pos),
    ensures
        kind_seen_ok(cq_step(st, s.skip(pos)).0, s, pos + cq_step(st, s.skip(pos)).1),
{
    reveal_strlit("text");
    reveal_strlit("[CQ:");
    reveal_strlit("[CQ:text,");
    let rest = s.skip(pos);
    let (st2, n) = cq_step(st, rest);
    lemma_step_len(st, rest);
    let c = rest[0];
    if st.stat == 0 {
        if c == '[' && is_cq_open(rest) {
            if !has_text_opener(s) && st.text.len() != 0 {
                lemma_push_no_text_kind(st.out, CqSegV::Text(st.text));
            }
            assert(st2.typ =~= Seq::<char>::empty());
            assert(s.subrange(pos + 4 - 4 - 0, pos + 4) =~= "[CQ:"@ + st2.typ) by {
                assert(rest[0] == s[pos] && rest[1] == s[pos + 1] && rest[2] == s[pos + 2] && rest[3]
                    == s[pos + 3]);
            }
        }
    } else if st.stat == 1 {
        if c == ',' {
            if st.typ == "text"@ {
                assert(is_prefix_of(st.typ, "text"@)) by {
                    assert("text"@.take(4) =~= "text"@);
                }
                assert(s.subrange(pos - 8, pos - 8 + 9) =~= "[CQ:text,"@) by {
                    assert(s.subrange(pos - 8, pos) == "[CQ:"@ + st.typ);
                    assert(s[pos] == ',');
                }
                assert(0 <= pos - 8 && pos - 8 + 9 <= s.len());
                assert(has_text_opener(s));
            }
        } else {
            let (e, m) = read_char(rest, true);
            if is_prefix_of(st2.typ, "text"@) {
                let t2 = st2.typ;
                assert(t2 == st.typ.push(e));
                assert(is_prefix_of(st.typ, "text"@)) by {
                    assert("text"@.take(st.typ.len() as int) =~= t2.take(st.typ.len() as int));
                    assert(t2.take(st.typ.len() as int) =~= st.typ);
                }
                assert(e == "text"@[st.typ.len() as int]) by {
                    assert("text"@.take(t2.len() as int)[st.typ.len() as int] == e);
                }
                assert(e == 't' || e == 'e' || e == 'x');
                if rest[0] == '&' {
                    assert(e == '[' || e == ']' || e == '&' || e == ',');
                }
                assert(rest[0] == e && m == 1);
                assert(s.subrange(pos - 4 - st.typ.len(), pos + 1) =~= "[CQ:"@ + t2) by {
                    assert(s.subrange(pos - 4 - st.typ.len(), pos) == "[CQ:"@ + st.typ);
                    assert(s[pos] == e);
                }
                assert(pos + 1 - 4 - t2.len() == pos - 4 - st.typ.len());
            }
            assert(kind_seen_ok(st2, s, pos + n));
        }
    } else {
        if st.stat != 2 && c == ']' {
            if !has_text_opener(s) {
                lemma_push_no_text_kind(
                    st.out,
                    CqSegV::Code(st.typ, params_insert(st.params, st.key, st.val)),
                );
            }
        }
        assert(kind_seen_ok(st2, s, pos + n));
    }
}

proof fn lemma_run_kind_seen(st: CqReadState, s: Seq<char>, pos: int)
    requires
        0 <= pos <= s.len(),
        kind_seen_ok(st, s, pos),
    ensures
        no_text_kind(cq_run(st, s.skip(pos))) || has_text_opener(s),
    decreases s.len() - pos,
{
    let rest = s.skip(pos);
    if rest.len() == 0 {
        if !has_text_opener(s) && st.text.len() != 0 {
            lemma_push_no_text_kind(st.out, CqSegV::Text(st.text));
        }
    } else {
        let (st2, n) = cq_step(st, rest);
        lemma_step_len(st, rest);
        lemma_step_kind_seen(st, s, pos);
        assert(rest.skip(n) =~= s.skip(pos + n));
        lemma_run_kind_seen(st2, s, pos + n);
    }
}

/// A CQ string without the opener `[CQ:text,` reads as pieces none of
/// which is a CQ code typed `text`.
pub proof fn law_no_text_opener_no_text_code(s: Seq<char>)
    ensures
        !has_text_opener(s) ==> no_text_kind(cq_parse(s)),
{
    assert(s.skip(0) =~= s);
    lemma_run_kind_seen(cq_start(), s, 0);
}

/// Every CQ string reads as a well-shaped message: the pieces are shaped as
/// `segs_shape` says and every element of the array as `node_shape` says;
/// where the string holds no opener `[CQ:text,`, every text element holds
/// non-empty text and nothing else, and no two text elements follow each
/// other.
pub proof fn law_cq_parse_shape(s: Seq<char>)
    ensures
        segs_shape(cq_parse(s)),
        str_msg_to_arr_spec(JsonV::Str(s)) == Ok::<JsonV, CqError>(segs_json(cq_parse(s))),
        forall|i: int|
            0 <= i < cq_parse(s).len() ==> #[trigger] node_shape(seg_json(cq_parse(s)[i])),
        !has_text_opener(s) ==> forall|i: int|
            0 <= i < cq_parse(s).len() ==> #[trigger] text_node_ok(seg_json(cq_parse(s)[i])),
        !has_text_opener(s) ==> forall|i: int|
            0 <= i < cq_parse(s).len() - 1 ==> !(#[trigger] is_text_node(seg_json(cq_parse(s)[i]))
                && is_text_node(seg_json(cq_parse(s)[i + 1]))),
{
    lemma_run_keeps_shape(cq_start(), s);
    let segs = cq_parse(s);
    reveal_strlit("type");
    reveal_strlit("data");
    reveal_strlit("text");
    reveal_with_fuel(crate::json::fields_get, 3);
    assert("type"@ != "data"@) by {
        assert("type"@[0] != "data"@[0]);
    }
    assert forall|i: int| 0 <= i < segs.len() implies #[trigger] node_shape(seg_json(segs[i])) by {
        match segs[i] {
            CqSegV::Text(t) => {},
            CqSegV::Code(k, ps) => {
                let ds = ps.map_values(|p: (Seq<char>, Seq<char>)| param_json(p));
                assert(ds.len() == ps.len());
                assert forall|j: int| 0 <= j < ds.len() implies (#[trigger] ds[j]).1 is Str by {}
            },
        }
    }
    if !has_text_opener(s) {
        law_no_text_opener_no_text_code(s);
        assert forall|i: int| 0 <= i < segs.len() implies #[trigger] text_node_ok(seg_json(segs[i])) by {
            match segs[i] {
                CqSegV::Text(t) => {
                    assert(t.len() > 0);
                    assert(seg_json(segs[i]).get("data"@) == Some(
                        JsonV::Object(seq![("text"@, JsonV::Str(t))]),
                    ));
                },
                CqSegV::Code(k, _) => {
                    assert(k != "text"@);
                },
            }
        }
        assert forall|i: int| 0 <= i < segs.len() - 1 implies !(#[trigger] is_text_node(
            seg_json(segs[i]),
        ) && is_text_node(seg_json(segs[i + 1]))) by {
            match segs[i] {
                CqSegV::Text(_) => {
                    if let CqSegV::Code(k, _) = segs[i + 1] {
                        assert(k != "text"@);
                    }
                },
                CqSegV::Code(k, _) => {
                    assert(k != "text"@);
                },
            }
        }
    }
}

/// A member of a CQ code's `data` as a parameter: its name and its text.
pub open spec fn field_param(f: (Seq<char>, JsonV)) -> (Seq<char>, Seq<char>) {
    match f.1 {
        JsonV::Str(v) => (f.0, v),
        _ => (f.0, Seq::empty()),
    }
}

/// The message piece a OneBot message segment stands for: a `text`
/// segment is its text, any other segment a CQ code with the members of
/// its `data` as parameters.
pub open spec fn node_seg(n: JsonV) -> CqSegV {
    match (n.get("type"@), n.get("data"@)) {
        (Some(JsonV::Str(t)), Some(JsonV::Object(ds))) => if t == "text"@ {
            CqSegV::Text(
                match ds[0].1 {
                    JsonV::Str(x) => x,
                    _ => Seq::empty(),
                },
            )
        } else {
            CqSegV::Code(t, ds.map_values(|f: (Seq<char>, JsonV)| field_param(f)))
        },
        _ => CqSegV::Text(Seq::empty()),
    }
}

/// A OneBot message segment that its CQ text reads back as: an object with
/// exactly the members `type`, a string, and `data`, an object of strings;
/// a `text` segment's `data` is `{"text": t}` with `t` not empty; any other
/// segment's type holds no `,` or `&`, and its `data` has members, whose
/// names hold no `=` or `&` and differ from each other.
pub open spec fn node_ok(n: JsonV) -> bool {
    &&& n matches JsonV::Object(fs) && fs.len() == 2
    &&& n.get("type"@) matches Some(JsonV::Str(t))
    &&& n.get("data"@) matches Some(JsonV::Object(ds))
    &&& forall|j: int| 0 <= j < ds.len() ==> (#[trigger] ds[j]).1 is Str
    &&& t == "text"@ ==> ds.len() == 1 && ds[0].0 == "text"@
    &&& match node_seg(n) {
        CqSegV::Text(x) => x.len() > 0,
        CqSegV::Code(k, ps) => code_ok(k, ps),
    }
}

/// A OneBot message array whose segments all meet `node_ok`, with no two
/// `text` segments next to each other.
pub open spec fn nodes_ok(nodes: Seq<JsonV>) -> bool {
    forall|i: int|
        0 <= i < nodes.len() ==> #[trigger] node_ok(nodes[i]) && (i + 1 < nodes.len()
            && is_text_node(nodes[i]) ==> !is_text_node(nodes[i + 1]))
}

proof fn lemma_node_seg(n: JsonV)
    requires
        node_ok(n),
    ensures
        seg_json(node_seg(n)).get("type"@) == n.get("type"@),
        seg_json(node_seg(n)).get("data"@) == n.get("data"@),
        item_text(n) == item_text(seg_json(node_seg(n))),
        node_seg(n) is Text <==> is_text_node(n),
        n matches JsonV::Object(fs) && fs[0].0 == "type"@ ==> seg_json(node_seg(n)) == n,
{
    reveal_strlit("type");
    reveal_strlit("data");
    reveal_strlit("text");
    reveal_with_fuel(crate::json::fields_get, 3);
    assert("type"@ != "data"@) by {
        assert("type"@[0] != "data"@[0]);
    }
    let fs = n->Object_0;
    let t = n.get("type"@)->Some_0->Str_0;
    let ds = n.get("data"@)->Some_0->Object_0;
    let j = seg_json(node_seg(n));
    if t == "text"@ {
        let x = ds[0].1->Str_0;
        assert(ds =~= seq![("text"@, JsonV::Str(x))]);
        assert(j->Object_0.drop_first()[0].0 == "data"@);
    } else {
        let ps = ds.map_values(|f: (Seq<char>, JsonV)| field_param(f));
        assert(ps.map_values(|p: (Seq<char>, Seq<char>)| param_json(p)) =~= ds) by {
            assert forall|i: int| 0 <= i < ds.len() implies ps.map_values(
                |p: (Seq<char>, Seq<char>)| param_json(p),
            )[i] == ds[i] by {
                assert(ds[i].1 is Str);
            }
        }
        assert(j->Object_0.drop_first()[0].0 == "data"@);
    }
    assert(j.get("type"@) == n.get("type"@));
    assert(j.get("data"@) == n.get("data"@));
    if fs[0].0 == "type"@ {
        assert(fs.drop_first()[0] == fs[1]);
        assert(fs[1].0 == "data"@);
        assert(fs =~= j->Object_0);
    }
}

proof fn lemma_items_text_same(a: Seq<JsonV>, b: Seq<JsonV>)
    requires
        a.len() == b.len(),
        forall|i: int| 0 <= i < a.len() ==> item_text(#[trigger] a[i]) == item_text(b[i]),
    ensures
        items_text(a) == items_text(b),
    decreases a.len(),
{
    if a.len() > 0 {
        assert(item_text(a[0]) == item_text(b[0]));
        lemma_items_text_same(a.drop_first(), b.drop_first());
    }
}

/// A OneBot message array that meets `nodes_ok` survives a trip through
/// its CQ string: `arr_to_cq_str` writes it, and `str_msg_to_arr` of that
/// string gives back an array of as many segments, each with the same
/// `type` and `data` as the segment it came from, and equal to it where
/// that segment lists `type` first.
pub proof fn law_cq_array_roundtrip(nodes: Seq<JsonV>)
    requires
        nodes_ok(nodes),
    ensures
        arr_to_cq_spec(JsonV::Array(nodes)) == Ok::<Seq<char>, CqError>(
            segs_text(nodes.map_values(|n: JsonV| node_seg(n))),
        ),
        str_msg_to_arr_spec(JsonV::Str(segs_text(nodes.map_values(|n: JsonV| node_seg(n)))))
            matches Ok(JsonV::Array(rs)) && rs.len() == nodes.len() && forall|i: int|
            0 <= i < nodes.len() ==> (#[trigger] rs[i]).get("type"@) == nodes[i].get("type"@)
                && rs[i].get("data"@) == nodes[i].get("data"@) && (nodes[i] matches JsonV::Object(
                fs,
            ) && fs[0].0 == "type"@ ==> rs[i] == nodes[i]),
{
    reveal_strlit("text");
    let segs = nodes.map_values(|n: JsonV| node_seg(n));
    assert forall|i: int| 0 <= i < nodes.len() implies #[trigger] segs[i] == node_seg(nodes[i])
        && seg_json(segs[i]).get("type"@) == nodes[i].get("type"@) && seg_json(segs[i]).get(
        "data"@,
    ) == nodes[i].get("data"@) && item_text(nodes[i]) == item_text(seg_json(segs[i])) && (
    segs[i] is Text <==> is_text_node(nodes[i])) && (nodes[i] matches JsonV::Object(fs) && fs[0].0
        == "type"@ ==> seg_json(segs[i]) == nodes[i]) by {
        assert(node_ok(nodes[i]));
        lemma_node_seg(nodes[i]);
    }
    assert(segs_ok(segs)) by {
        assert forall|i: int| 0 <= i < segs.len() implies match #[trigger] segs[i] {
            CqSegV::Text(t) => t.len() > 0 && (i + 1 < segs.len() ==> segs[i + 1] is Code),
            CqSegV::Code(k, ps) => code_ok(k, ps),
        } by {
            assert(node_ok(nodes[i]));
            if i + 1 < segs.len() {
                assert(segs[i + 1] == node_seg(nodes[i + 1]));
            }
        }
    }
    assert(no_text_kind(segs)) by {
        assert forall|i: int| 0 <= i < segs.len() implies (#[trigger] segs[i] matches CqSegV::Code(
            k,
            _,
        ) ==> k != "text"@) by {
            assert(node_ok(nodes[i]));
        }
    }
    let items = segs.map_values(|s: CqSegV| seg_json(s));
    lemma_items_text_same(nodes, items);
    law_cq_message_roundtrip(segs);
}

} // verus!
