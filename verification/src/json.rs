//! A JSON value as the library reads and builds it. Numbers are kept as
//! serde_json keeps them: non-negative integers, negative integers, and other
//! numbers (held by their text).
use vstd::prelude::*;
use crate::text::{chars_eq, chars_of};

verus! {

/// The mathematical value of a JSON document.
pub enum JsonV {
    Null,
    Bool(bool),
    PosInt(u64),
    NegInt(i64),
    Float(Seq<char>),
    Str(Seq<char>),
    Array(Seq<JsonV>),
    Object(Seq<(Seq<char>, JsonV)>),
}

/// A JSON value. Object members keep their order; a lookup finds the first
/// member of a name.
pub enum Json {
    Null,
    Bool(bool),
    PosInt(u64),
    NegInt(i64),
    Float(String),
    Str(String),
    Array(Vec<Json>),
    Object(Vec<(String, Json)>),
}

pub open spec fn json_view(j: Json) -> JsonV
    decreases j,
{
    match j {
        Json::Null => JsonV::Null,
        Json::Bool(b) => JsonV::Bool(b),
        Json::PosInt(n) => JsonV::PosInt(n),
        Json::NegInt(n) => JsonV::NegInt(n),
        Json::Float(s) => JsonV::Float(s@),
        Json::Str(s) => JsonV::Str(s@),
        Json::Array(v) => JsonV::Array(json_seq_view(v@)),
        Json::Object(v) => JsonV::Object(json_fields_view(v@)),
    }
}

pub open spec fn json_seq_view(s: Seq<Json>) -> Seq<JsonV>
    decreases s,
{
    if s.len() == 0 {
        Seq::empty()
    } else {
        json_seq_view(s.drop_last()).push(json_view(s.last()))
    }
}

pub open spec fn json_fields_view(s: Seq<(String, Json)>) -> Seq<(Seq<char>, JsonV)>
    decreases s,
{
    if s.len() == 0 {
        Seq::empty()
    } else {
        json_fields_view(s.drop_last()).push((s.last().0@, json_view(s.last().1)))
    }
}

impl View for Json {
    type V = JsonV;

    open spec fn view(&self) -> JsonV {
        json_view(*self)
    }
}

pub proof fn lemma_seq_view(s: Seq<Json>)
    ensures
        json_seq_view(s).len() == s.len(),
        forall|i: int| 0 <= i < s.len() ==> #[trigger] json_seq_view(s)[i] == json_view(s[i]),
    decreases s.len(),
{
    if s.len() > 0 {
        lemma_seq_view(s.drop_last());
    }
}

pub proof fn lemma_fields_view(s: Seq<(String, Json)>)
    ensures
        json_fields_view(s).len() == s.len(),
        forall|i: int|
            0 <= i < s.len() ==> #[trigger] json_fields_view(s)[i] == (s[i].0@, json_view(s[i].1)),
    decreases s.len(),
{
    if s.len() > 0 {
        lemma_fields_view(s.drop_last());
    }
}

/// The value that the first member named `k` holds.
pub open spec fn fields_get(fs: Seq<(Seq<char>, JsonV)>, k: Seq<char>) -> Option<JsonV>
    decreases fs.len(),
{
    if fs.len() == 0 {
        None
    } else if fs[0].0 == k {
        Some(fs[0].1)
    } else {
        fields_get(fs.drop_first(), k)
    }
}

/// The JSON value of a signed integer, as serde_json stores it.
pub open spec fn int_v(i: i64) -> JsonV {
    if i < 0 {
        JsonV::NegInt(i)
    } else {
        JsonV::PosInt(i as u64)
    }
}

impl JsonV {
    /// `value.get(k)`: the member `k` of an object; nothing for other values.
    pub open spec fn get(self, k: Seq<char>) -> Option<JsonV> {
        match self {
            JsonV::Object(fs) => fields_get(fs, k),
            _ => None,
        }
    }

    pub open spec fn as_str(self) -> Option<Seq<char>> {
        match self {
            JsonV::Str(s) => Some(s),
            _ => None,
        }
    }

    /// `as_i64`: integers that fit in an `i64`.
    pub open spec fn as_i64(self) -> Option<i64> {
        match self {
            JsonV::PosInt(n) => if n <= i64::MAX {
                Some(n as i64)
            } else {
                None
            },
            JsonV::NegInt(i) => Some(i),
            _ => None,
        }
    }

    /// `as_u64`: non-negative integers.
    pub open spec fn as_u64(self) -> Option<u64> {
        match self {
            JsonV::PosInt(n) => Some(n),
            _ => None,
        }
    }

    pub open spec fn as_bool(self) -> Option<bool> {
        match self {
            JsonV::Bool(b) => Some(b),
            _ => None,
        }
    }

    pub open spec fn as_array(self) -> Option<Seq<JsonV>> {
        match self {
            JsonV::Array(v) => Some(v),
            _ => None,
        }
    }

    /// `value == "s"`: the value is the string `s`.
    pub open spec fn is_str(self, s: Seq<char>) -> bool {
        self == JsonV::Str(s)
    }
}

/// The members `fields` with `(k, v)` after them.
pub fn push_field(fields: &mut Vec<(String, Json)>, k: &str, v: Json)
    ensures
        json_fields_view(final(fields)@) == json_fields_view(old(fields)@).push((k@, v@)),
{
    let key = crate::text::to_string(k);
    fields.push((key, v));
    assert(fields@.drop_last() =~= old(fields)@);
}

impl Json {
    /// A JSON string holding `s`.
    pub fn str_of(s: &str) -> (r: Json)
        ensures
            r@ == JsonV::Str(s@),
    {
        Json::Str(crate::text::to_string(s))
    }

    /// The JSON number `i`.
    pub fn from_i64(i: i64) -> (r: Json)
        ensures
            r@ == int_v(i),
    {
        if i < 0 {
            Json::NegInt(i)
        } else {
            Json::PosInt(i as u64)
        }
    }

    /// An empty object.
    pub fn empty_object() -> (r: Json)
        ensures
            r@ == JsonV::Object(Seq::empty()),
    {
        let v: Vec<(String, Json)> = Vec::new();
        Json::Object(v)
    }

    /// `value.get(k)`.
    pub fn get(&self, k: &str) -> (r: Option<&Json>)
        ensures
            match r {
                Some(x) => self@.get(k@) == Some(x@),
                None => self@.get(k@) is None,
            },
    {
        match self {
            Json::Object(fields) => {
                assert(self@ == JsonV::Object(json_fields_view(fields@)));
                let kc = chars_of(k);
                let n = fields.len();
                let mut i: usize = 0;
                proof {
                    lemma_fields_view(fields@);
                    assert(json_fields_view(fields@).skip(0) =~= json_fields_view(fields@));
                }
                while i < n
                    invariant
                        n == fields@.len(),
                        i <= n,
                        kc@ == k@,
                        self@ == JsonV::Object(json_fields_view(fields@)),
                        json_fields_view(fields@).len() == n,
                        forall|j: int|
                            0 <= j < n ==> #[trigger] json_fields_view(fields@)[j] == (
                                fields@[j].0@,
                                json_view(fields@[j].1),
                            ),
                        fields_get(json_fields_view(fields@), k@) == fields_get(
                            json_fields_view(fields@).skip(i as int),
                            k@,
                        ),
                    decreases n - i,
                {
                    let fc = chars_of(fields[i].0.as_str());
                    let ghost rest = json_fields_view(fields@).skip(i as int);
                    assert(rest[0] == json_fields_view(fields@)[i as int]);
                    assert(rest.len() == n - i);
                    if chars_eq(fc.as_slice(), kc.as_slice()) {
                        assert(rest[0].0 == k@);
                        assert(fields_get(rest, k@) == Some(rest[0].1));
                        assert(rest[0].1 == json_view(fields@[i as int].1));
                        assert(self@.get(k@) == Some(json_view(fields@[i as int].1)));
                        let x = &fields[i].1;
                        assert(x@ == json_view(fields@[i as int].1));
                        return Some(x);
                    }
                    assert(rest.drop_first() =~= json_fields_view(fields@).skip(i + 1));
                    i = i + 1;
                }
                None
            },
            _ => None,
        }
    }

    /// `value.as_str()`.
    pub fn as_str(&self) -> (r: Option<&str>)
        ensures
            match r {
                Some(x) => self@.as_str() == Some(x@),
                None => self@.as_str() is None,
            },
    {
        match self {
            Json::Str(s) => Some(s.as_str()),
            _ => None,
        }
    }

    /// `value.as_i64()`.
    pub fn as_i64(&self) -> (r: Option<i64>)
        ensures
            r == self@.as_i64(),
    {
        match self {
            Json::PosInt(n) => if *n <= 0x7fff_ffff_ffff_ffffu64 {
                Some(*n as i64)
            } else {
                None
            },
            Json::NegInt(i) => Some(*i),
            _ => None,
        }
    }

    /// `value.as_u64()`.
    pub fn as_u64(&self) -> (r: Option<u64>)
        ensures
            r == self@.as_u64(),
    {
        match self {
            Json::PosInt(n) => Some(*n),
            _ => None,
        }
    }

    /// `value.as_bool()`.
    pub fn as_bool(&self) -> (r: Option<bool>)
        ensures
            r == self@.as_bool(),
    {
        match self {
            Json::Bool(b) => Some(*b),
            _ => None,
        }
    }

    /// `value.as_array()`.
    pub fn as_array(&self) -> (r: Option<&Vec<Json>>)
        ensures
            match r {
                Some(v) => self@.as_array() == Some(json_seq_view(v@)),
                None => self@.as_array() is None,
            },
    {
        match self {
            Json::Array(v) => Some(v),
            _ => None,
        }
    }

    /// `value.as_object()`: the members of an object.
    pub fn as_object(&self) -> (r: Option<&Vec<(String, Json)>>)
        ensures
            match r {
                Some(v) => self@ == JsonV::Object(json_fields_view(v@)),
                None => !(self@ is Object),
            },
    {
        match self {
            Json::Object(v) => Some(v),
            _ => None,
        }
    }

    /// `value == s`: the value is the string `s`.
    pub fn eq_str(&self, s: &str) -> (r: bool)
        ensures
            r == self@.is_str(s@),
    {
        match self {
            Json::Str(t) => crate::text::str_eq(t.as_str(), s),
            _ => false,
        }
    }
}

impl Json {
    /// A copy of the value.
    pub fn deep_clone(&self) -> (r: Json)
        ensures
            r@ == self@,
        decreases self,
    {
        match self {
            Json::Null => Json::Null,
            Json::Bool(b) => Json::Bool(*b),
            Json::PosInt(n) => Json::PosInt(*n),
            Json::NegInt(n) => Json::NegInt(*n),
            Json::Float(s) => Json::Float(s.clone()),
            Json::Str(s) => Json::Str(s.clone()),
            Json::Array(v) => {
                let mut out: Vec<Json> = Vec::new();
                let n = v.len();
                let mut i: usize = 0;
                while i < n
                    invariant
                        n == v@.len(),
                        i <= n,
                        json_seq_view(out@) == json_seq_view(v@.take(i as int)),
                        *self == Json::Array(*v),
                    decreases n - i,
                {
                    assert((*self)->Array_0 == *v);
                    assert(decreases_to!(*self => (*self)->Array_0));
                    assert(decreases_to!(*v => v@));
                    assert(decreases_to!(v@ => v@[i as int]));
                    assert(decreases_to!(self => v@[i as int]));
                    let c = v[i].deep_clone();
                    let ghost before = out@;
                    out.push(c);
                    proof {
                        assert(out@.drop_last() =~= before);
                        assert(v@.take(i + 1).drop_last() =~= v@.take(i as int));
                    }
                    i = i + 1;
                }
                assert(v@.take(n as int) =~= v@);
                Json::Array(out)
            },
            Json::Object(v) => {
                let mut out: Vec<(String, Json)> = Vec::new();
                let n = v.len();
                let mut i: usize = 0;
                while i < n
                    invariant
                        n == v@.len(),
                        i <= n,
                        json_fields_view(out@) == json_fields_view(v@.take(i as int)),
                        *self == Json::Object(*v),
                    decreases n - i,
                {
                    assert((*self)->Object_0 == *v);
                    assert(decreases_to!(*self => (*self)->Object_0));
                    assert(decreases_to!(*v => v@));
                    assert(decreases_to!(v@ => v@[i as int]));
                    assert(decreases_to!(v@[i as int] => v@[i as int].1));
                    assert(decreases_to!(self => v@[i as int].1));
                    let c = v[i].1.deep_clone();
                    let k = v[i].0.clone();
                    let ghost before = out@;
                    out.push((k, c));
                    proof {
                        assert(out@.drop_last() =~= before);
                        assert(v@.take(i + 1).drop_last() =~= v@.take(i as int));
                    }
                    i = i + 1;
                }
                assert(v@.take(n as int) =~= v@);
                Json::Object(out)
            },
        }
    }
}

/// Why a JSON document does not have the shape a reader expects.
#[derive(Debug, Clone, Copy, PartialEq, Eq, Structural)]
pub enum ShapeError {
    /// A member is missing.
    Missing,
    /// A value is not a string.
    NotStr,
    /// A value is not an integer of the expected kind.
    NotInt,
    /// A value is not a boolean.
    NotBool,
    /// A value is not an array.
    NotArray,
    /// A string is not a number of the expected kind.
    BadNumber,
}

/// The string member `k`, or why there is none.
pub open spec fn str_member(j: JsonV, k: Seq<char>) -> Result<Seq<char>, ShapeError> {
    match j.get(k) {
        None => Err(ShapeError::Missing),
        Some(v) => match v.as_str() {
            Some(s) => Ok(s),
            None => Err(ShapeError::NotStr),
        },
    }
}

/// The member `k` as an `i64`, or why there is none.
pub open spec fn i64_member(j: JsonV, k: Seq<char>) -> Result<i64, ShapeError> {
    match j.get(k) {
        None => Err(ShapeError::Missing),
        Some(v) => match v.as_i64() {
            Some(n) => Ok(n),
            None => Err(ShapeError::NotInt),
        },
    }
}

/// The member `k` as a `u64`, or why there is none.
pub open spec fn u64_member(j: JsonV, k: Seq<char>) -> Result<u64, ShapeError> {
    match j.get(k) {
        None => Err(ShapeError::Missing),
        Some(v) => match v.as_u64() {
            Some(n) => Ok(n),
            None => Err(ShapeError::NotInt),
        },
    }
}

/// The member `k` as a boolean, or why there is none.
pub open spec fn bool_member(j: JsonV, k: Seq<char>) -> Result<bool, ShapeError> {
    match j.get(k) {
        None => Err(ShapeError::Missing),
        Some(v) => match v.as_bool() {
            Some(b) => Ok(b),
            None => Err(ShapeError::NotBool),
        },
    }
}

/// The member `k` as an array, or why there is none.
pub open spec fn array_member(j: JsonV, k: Seq<char>) -> Result<Seq<JsonV>, ShapeError> {
    match j.get(k) {
        None => Err(ShapeError::Missing),
        Some(v) => match v.as_array() {
            Some(a) => Ok(a),
            None => Err(ShapeError::NotArray),
        },
    }
}

/// The member `k`, or `Missing`.
pub open spec fn member(j: JsonV, k: Seq<char>) -> Result<JsonV, ShapeError> {
    match j.get(k) {
        None => Err(ShapeError::Missing),
        Some(v) => Ok(v),
    }
}

/// The string member `k` read as a `u64` id, or why it cannot be.
pub open spec fn id_member(j: JsonV, k: Seq<char>) -> Result<u64, ShapeError> {
    match str_member(j, k) {
        Err(e) => Err(e),
        Ok(s) => match crate::text::parse_u64_spec(s) {
            Some(n) => Ok(n),
            None => Err(ShapeError::BadNumber),
        },
    }
}

impl Json {
    /// `value.get(k).ok_or(..)?.as_str().ok_or(..)?`, as an owned string.
    pub fn str_member(&self, k: &str) -> (r: Result<String, ShapeError>)
        ensures
            match r {
                Ok(s) => str_member(self@, k@) == Ok::<Seq<char>, ShapeError>(s@),
                Err(e) => str_member(self@, k@) == Err::<Seq<char>, ShapeError>(e),
            },
    {
        match self.get(k) {
            None => Err(ShapeError::Missing),
            Some(v) => match v.as_str() {
                Some(s) => Ok(crate::text::to_string(s)),
                None => Err(ShapeError::NotStr),
            },
        }
    }

    /// The member `k` as an `i64`.
    pub fn i64_member(&self, k: &str) -> (r: Result<i64, ShapeError>)
        ensures
            r == i64_member(self@, k@),
    {
        match self.get(k) {
            None => Err(ShapeError::Missing),
            Some(v) => match v.as_i64() {
                Some(n) => Ok(n),
                None => Err(ShapeError::NotInt),
            },
        }
    }

    /// The member `k` as a `u64`.
    pub fn u64_member(&self, k: &str) -> (r: Result<u64, ShapeError>)
        ensures
            r == u64_member(self@, k@),
    {
        match self.get(k) {
            None => Err(ShapeError::Missing),
            Some(v) => match v.as_u64() {
                Some(n) => Ok(n),
                None => Err(ShapeError::NotInt),
            },
        }
    }

    /// The member `k` as a boolean.
    pub fn bool_member(&self, k: &str) -> (r: Result<bool, ShapeError>)
        ensures
            r == bool_member(self@, k@),
    {
        match self.get(k) {
            None => Err(ShapeError::Missing),
            Some(v) => match v.as_bool() {
                Some(b) => Ok(b),
                None => Err(ShapeError::NotBool),
            },
        }
    }

    /// The member `k` as an array.
    pub fn array_member(&self, k: &str) -> (r: Result<&Vec<Json>, ShapeError>)
        ensures
            match r {
                Ok(a) => array_member(self@, k@) == Ok::<Seq<JsonV>, ShapeError>(
                    json_seq_view(a@),
                ),
                Err(e) => array_member(self@, k@) == Err::<Seq<JsonV>, ShapeError>(e),
            },
    {
        match self.get(k) {
            None => Err(ShapeError::Missing),
            Some(v) => match v.as_array() {
                Some(a) => Ok(a),
                None => Err(ShapeError::NotArray),
            },
        }
    }

    /// The member `k`.
    pub fn member(&self, k: &str) -> (r: Result<&Json, ShapeError>)
        ensures
            match r {
                Ok(v) => member(self@, k@) == Ok::<JsonV, ShapeError>(v@),
                Err(e) => member(self@, k@) == Err::<JsonV, ShapeError>(e),
            },
    {
        match self.get(k) {
            None => Err(ShapeError::Missing),
            Some(v) => Ok(v),
        }
    }

    /// The string member `k` read as a `u64` id.
    pub fn id_member(&self, k: &str) -> (r: Result<u64, ShapeError>)
        ensures
            r == id_member(self@, k@),
    {
        match self.str_member(k) {
            Err(e) => Err(e),
            Ok(s) => match crate::text::parse_u64(s.as_str()) {
                Some(n) => Ok(n),
                None => Err(ShapeError::BadNumber),
            },
        }
    }
}

} // verus!
