//! JSON documents as plain values, with the accessors that the rest of the
//! library reads them by.

use crate::text::{opt_view, owned, str_eq};
use vstd::prelude::*;
use vstd::string::*;

verus! {

/// A number of a JSON document.
///
/// Integers that fit are kept as integers; any other number is kept as the
/// bits of its IEEE 754 double.
#[derive(Debug, Clone, Copy, PartialEq, Eq, Structural)]
pub enum Number {
    /// An integer that is not negative.
    Unsigned(u64),
    /// A negative integer.
    Negative(i64),
    /// Any other number, by its bits.
    Float(u64),
}

/// A JSON document.
#[derive(Debug, PartialEq, Eq)]
pub enum Json {
    Null,
    Bool(bool),
    Number(Number),
    Str(String),
    Array(Vec<Json>),
    /// Members in document order.
    Object(Vec<(String, Json)>),
}

/// The mathematical value of a JSON document.
#[verifier::ext_equal]
pub enum JsonValue {
    Null,
    Bool(bool),
    Number(Number),
    Str(Seq<char>),
    Array(Seq<JsonValue>),
    Object(Seq<(Seq<char>, JsonValue)>),
}

impl Json {
    /// The value of a document.
    pub open spec fn value(self) -> JsonValue
        decreases self,
    {
        match self {
            Json::Null => JsonValue::Null,
            Json::Bool(b) => JsonValue::Bool(b),
            Json::Number(n) => JsonValue::Number(n),
            Json::Str(s) => JsonValue::Str(s@),
            Json::Array(v) => JsonValue::Array(
                Seq::new(
                    v@.len(),
                    |i: int|
                        if 0 <= i < v@.len() {
                            v@[i].value()
                        } else {
                            JsonValue::Null
                        },
                ),
            ),
            Json::Object(v) => JsonValue::Object(
                Seq::new(
                    v@.len(),
                    |i: int|
                        if 0 <= i < v@.len() {
                            (v@[i].0@, v@[i].1.value())
                        } else {
                            (Seq::empty(), JsonValue::Null)
                        },
                ),
            ),
        }
    }
}

/// The values of a sequence of documents.
pub open spec fn values(s: Seq<Json>) -> Seq<JsonValue> {
    Seq::new(s.len(), |i: int| s[i].value())
}

/// The members of an object, by value.
pub open spec fn member_values(s: Seq<(String, Json)>) -> Seq<(Seq<char>, JsonValue)> {
    Seq::new(s.len(), |i: int| (s[i].0@, s[i].1.value()))
}

/// The value of the first member with the given key.
pub open spec fn lookup(members: Seq<(Seq<char>, JsonValue)>, key: Seq<char>) -> Option<JsonValue>
    decreases members.len(),
{
    if members.len() == 0 {
        None
    } else if members[0].0 == key {
        Some(members[0].1)
    } else {
        lookup(members.drop_first(), key)
    }
}

impl JsonValue {
    /// The members of an object.
    pub open spec fn members(self) -> Option<Seq<(Seq<char>, JsonValue)>> {
        match self {
            JsonValue::Object(m) => Some(m),
            _ => None,
        }
    }

    /// The value under a key of an object.
    pub open spec fn get(self, key: Seq<char>) -> Option<JsonValue> {
        match self {
            JsonValue::Object(m) => lookup(m, key),
            _ => None,
        }
    }

    /// The value under a key, null where there is none.
    pub open spec fn field(self, key: Seq<char>) -> JsonValue {
        match self.get(key) {
            Some(v) => v,
            None => JsonValue::Null,
        }
    }

    pub open spec fn as_text(self) -> Option<Seq<char>> {
        match self {
            JsonValue::Str(s) => Some(s),
            _ => None,
        }
    }

    pub open spec fn as_items(self) -> Option<Seq<JsonValue>> {
        match self {
            JsonValue::Array(v) => Some(v),
            _ => None,
        }
    }

    pub open spec fn as_flag(self) -> Option<bool> {
        match self {
            JsonValue::Bool(b) => Some(b),
            _ => None,
        }
    }

    pub open spec fn as_number(self) -> Option<Number> {
        match self {
            JsonValue::Number(n) => Some(n),
            _ => None,
        }
    }

    /// The number, where it is an integer that is not negative.
    pub open spec fn as_unsigned(self) -> Option<u64> {
        match self {
            JsonValue::Number(Number::Unsigned(n)) => Some(n),
            _ => None,
        }
    }

    /// The number, where it is an integer in the range of `i64`.
    pub open spec fn as_signed(self) -> Option<i64> {
        match self {
            JsonValue::Number(Number::Unsigned(n)) => if n <= i64::MAX {
                Some(n as i64)
            } else {
                None
            },
            JsonValue::Number(Number::Negative(n)) => Some(n),
            _ => None,
        }
    }
}

/// The text under a key, empty where there is none.
pub open spec fn text_field(j: JsonValue, key: Seq<char>) -> Seq<char> {
    match j.field(key).as_text() {
        Some(s) => s,
        None => Seq::empty(),
    }
}

/// The value of an optional document.
pub open spec fn opt_value(o: Option<&Json>) -> Option<JsonValue> {
    match o {
        Some(j) => Some(j.value()),
        None => None,
    }
}

/// The number for a signed integer.
pub open spec fn signed_number(n: i64) -> Number {
    if n >= 0 {
        Number::Unsigned(n as u64)
    } else {
        Number::Negative(n)
    }
}

proof fn lemma_lookup_skips(m: Seq<(Seq<char>, JsonValue)>, key: Seq<char>, i: int)
    requires
        0 <= i <= m.len(),
        forall|k: int| 0 <= k < i ==> (#[trigger] m[k]).0 != key,
    ensures
        lookup(m, key) == lookup(m.skip(i), key),
    decreases i,
{
    if i == 0 {
        assert(m.skip(0) =~= m);
    } else {
        lemma_lookup_skips(m, key, i - 1);
        assert(m.skip(i - 1).drop_first() =~= m.skip(i));
        assert(m.skip(i - 1)[0] == m[i - 1]);
    }
}

impl Json {
    /// The members of an object.
    pub fn as_object(&self) -> (r: Option<&Vec<(String, Json)>>)
        ensures
            match r {
                Some(v) => self.value() == JsonValue::Object(member_values(v@)),
                None => self.value().members() is None,
            },
    {
        match self {
            Json::Object(v) => {
                assert(self.value()->Object_0 =~= member_values(v@));
                Some(v)
            },
            _ => None,
        }
    }

    /// The value under a key of an object.
    pub fn get(&self, key: &str) -> (r: Option<&Json>)
        ensures
            opt_value(r) == self.value().get(key@),
    {
        match self.as_object() {
            Some(v) => get_member(v, key),
            None => None,
        }
    }

    pub fn as_str(&self) -> (r: Option<&String>)
        ensures
            match r {
                Some(s) => self.value().as_text() == Some(s@),
                None => self.value().as_text() is None,
            },
    {
        match self {
            Json::Str(s) => Some(s),
            _ => None,
        }
    }

    pub fn as_array(&self) -> (r: Option<&Vec<Json>>)
        ensures
            match r {
                Some(v) => self.value() == JsonValue::Array(values(v@)),
                None => self.value().as_items() is None,
            },
    {
        match self {
            Json::Array(v) => {
                assert(self.value()->Array_0 =~= values(v@));
                Some(v)
            },
            _ => None,
        }
    }

    pub fn as_bool(&self) -> (r: Option<bool>)
        ensures
            r == self.value().as_flag(),
    {
        match self {
            Json::Bool(b) => Some(*b),
            _ => None,
        }
    }

    pub fn as_number(&self) -> (r: Option<Number>)
        ensures
            r == self.value().as_number(),
    {
        match self {
            Json::Number(n) => Some(*n),
            _ => None,
        }
    }

    pub fn as_u64(&self) -> (r: Option<u64>)
        ensures
            r == self.value().as_unsigned(),
    {
        match self {
            Json::Number(Number::Unsigned(n)) => Some(*n),
            _ => None,
        }
    }

    pub fn as_i64(&self) -> (r: Option<i64>)
        ensures
            r == self.value().as_signed(),
    {
        match self {
            Json::Number(Number::Unsigned(n)) => {
                if *n <= i64::MAX as u64 {
                    Some(*n as i64)
                } else {
                    None
                }
            },
            Json::Number(Number::Negative(n)) => Some(*n),
            _ => None,
        }
    }

    /// A copy of the text under a key.
    pub fn text_at(&self, key: &str) -> (r: Option<String>)
        ensures
            opt_view(r) == self.value().field(key@).as_text(),
    {
        match self.get(key) {
            Some(v) => match v.as_str() {
                Some(s) => Some(s.clone()),
                None => None,
            },
            None => None,
        }
    }

    /// A copy of the text under a key, empty where there is none.
    pub fn text_or_empty(&self, key: &str) -> (r: String)
        ensures
            r@ == text_field(self.value(), key@),
    {
        match self.text_at(key) {
            Some(s) => s,
            None => String::new(),
        }
    }

    /// The items under a key.
    pub fn items_at(&self, key: &str) -> (r: Option<&Vec<Json>>)
        ensures
            match r {
                Some(v) => self.value().field(key@) == JsonValue::Array(values(v@)),
                None => self.value().field(key@).as_items() is None,
            },
    {
        match self.get(key) {
            Some(v) => v.as_array(),
            None => None,
        }
    }

    /// A text.
    pub fn text(s: &str) -> (r: Json)
        ensures
            r.value() == JsonValue::Str(s@),
    {
        Json::Str(owned(s))
    }

    /// A signed integer.
    pub fn signed(n: i64) -> (r: Json)
        ensures
            r.value() == JsonValue::Number(signed_number(n)),
    {
        if n >= 0 {
            Json::Number(Number::Unsigned(n as u64))
        } else {
            Json::Number(Number::Negative(n))
        }
    }

    /// A copy of a document.
    pub fn copy(&self) -> (r: Json)
        ensures
            r.value() == self.value(),
        decreases self,
    {
        match self {
            Json::Null => Json::Null,
            Json::Bool(b) => Json::Bool(*b),
            Json::Number(n) => Json::Number(*n),
            Json::Str(s) => Json::Str(s.clone()),
            Json::Array(v) => {
                let mut out: Vec<Json> = Vec::new();
                let mut i: usize = 0;
                while i < v.len()
                    invariant
                        *self == Json::Array(*v),
                        i <= v@.len(),
                        out@.len() == i,
                        forall|k: int|
                            0 <= k < i ==> (#[trigger] out@[k]).value() == v@[k].value(),
                    decreases v@.len() - i,
                {
                    assert(decreases_to!(self => self->Array_0));
                    assert(decreases_to!(v => v@));
                    assert(decreases_to!(v@ => v@[i as int]));
                    out.push(v[i].copy());
                    i = i + 1;
                }
                let r = Json::Array(out);
                assert(r.value()->Array_0 =~= self.value()->Array_0);
                r
            },
            Json::Object(v) => {
                let mut out: Vec<(String, Json)> = Vec::new();
                let mut i: usize = 0;
                while i < v.len()
                    invariant
                        *self == Json::Object(*v),
                        i <= v@.len(),
                        out@.len() == i,
                        forall|k: int|
                            0 <= k < i ==> (#[trigger] out@[k]).0@ == v@[k].0@ && out@[k].1.value()
                                == v@[k].1.value(),
                    decreases v@.len() - i,
                {
                    assert(decreases_to!(self => self->Object_0));
                    assert(decreases_to!(v => v@));
                    assert(decreases_to!(v@ => v@[i as int]));
                    assert(decreases_to!(v@[i as int] => v@[i as int].1));
                    out.push((v[i].0.clone(), v[i].1.copy()));
                    i = i + 1;
                }
                let r = Json::Object(out);
                assert(r.value()->Object_0 =~= self.value()->Object_0);
                r
            },
        }
    }
}

impl Clone for Json {
    fn clone(&self) -> (r: Json)
        ensures
            r.value() == self.value(),
    {
        self.copy()
    }
}

/// Appends a member.
pub fn push_member(v: &mut Vec<(String, Json)>, key: &str, j: Json)
    ensures
        member_values(final(v)@) == member_values(old(v)@).push((key@, j.value())),
{
    let ghost before = v@;
    v.push((owned(key), j));
    assert(member_values(v@) =~= member_values(before).push((key@, j.value())));
}

/// The object with the given members.
pub fn object_of(v: Vec<(String, Json)>) -> (r: Json)
    ensures
        r.value() == JsonValue::Object(member_values(v@)),
{
    let r = Json::Object(v);
    assert(r.value()->Object_0 =~= member_values(v@));
    r
}

/// The array with the given items.
pub fn array_of(v: Vec<Json>) -> (r: Json)
    ensures
        r.value() == JsonValue::Array(values(v@)),
{
    let r = Json::Array(v);
    assert(r.value()->Array_0 =~= values(v@));
    r
}

/// The first member with the given key.
pub fn get_member<'a>(v: &'a Vec<(String, Json)>, key: &str) -> (r: Option<&'a Json>)
    ensures
        opt_value(r) == lookup(member_values(v@), key@),
{
    let ghost m = member_values(v@);
    let mut i: usize = 0;
    while i < v.len()
        invariant
            m == member_values(v@),
            i <= v@.len(),
            forall|k: int| 0 <= k < i ==> (#[trigger] m[k]).0 != key@,
        decreases v@.len() - i,
    {
        if str_eq(v[i].0.as_str(), key) {
            proof {
                lemma_lookup_skips(m, key@, i as int);
                assert(m.skip(i as int)[0] == m[i as int]);
            }
            return Some(&v[i].1);
        }
        i = i + 1;
    }
    proof {
        lemma_lookup_skips(m, key@, i as int);
        assert(m.skip(i as int) =~= Seq::<(Seq<char>, JsonValue)>::empty());
    }
    None
}

// ---------------------------------------------------------------------------
// Laws
// ---------------------------------------------------------------------------
/// Under a key stands the value of the first member with that key, and nothing
/// where no member has it.
pub proof fn law_lookup_finds_the_first_member(m: Seq<(Seq<char>, JsonValue)>, key: Seq<char>)
    ensures
        forall|i: int|
            #![trigger m[i]]
            0 <= i < m.len() && m[i].0 == key && (forall|k: int|
                0 <= k < i ==> (#[trigger] m[k]).0 != key) ==> lookup(m, key) == Some(m[i].1),
        (forall|k: int| 0 <= k < m.len() ==> (#[trigger] m[k]).0 != key) ==> lookup(m, key) is None,
        JsonValue::Object(m).get(key) == lookup(m, key),
        JsonValue::Object(m).field(key) == (match lookup(m, key) {
            Some(v) => v,
            None => JsonValue::Null,
        }),
{
    assert forall|i: int|
        #![trigger m[i]]
        0 <= i < m.len() && m[i].0 == key && (forall|k: int|
            0 <= k < i ==> (#[trigger] m[k]).0 != key) implies lookup(m, key) == Some(m[i].1) by {
        lemma_lookup_skips(m, key, i);
        assert(m.skip(i)[0] == m[i]);
    }
    if forall|k: int| 0 <= k < m.len() ==> (#[trigger] m[k]).0 != key {
        lemma_lookup_skips(m, key, m.len() as int);
    }
}

/// Each kind of value is read as what it is, and as nothing else.
pub proof fn law_values_are_read_as_what_they_are(
    b: bool,
    n: u64,
    i: i64,
    s: Seq<char>,
    v: Seq<JsonValue>,
    m: Seq<(Seq<char>, JsonValue)>,
)
    ensures
        JsonValue::Bool(b).as_flag() == Some(b),
        JsonValue::Str(s).as_text() == Some(s),
        JsonValue::Array(v).as_items() == Some(v),
        JsonValue::Object(m).members() == Some(m),
        JsonValue::Number(Number::Unsigned(n)).as_unsigned() == Some(n),
        JsonValue::Number(Number::Negative(i)).as_unsigned() is None,
        JsonValue::Number(Number::Negative(i)).as_signed() == Some(i),
        JsonValue::Number(Number::Unsigned(n)).as_signed() is Some <==> n <= i64::MAX,
        n <= i64::MAX ==> JsonValue::Number(Number::Unsigned(n)).as_signed() == Some(n as i64),
        JsonValue::Str(s).as_flag() is None && JsonValue::Str(s).as_number() is None,
        JsonValue::Bool(b).as_text() is None
            && JsonValue::Number(Number::Unsigned(n)).as_text() is None,
        JsonValue::Number(signed_number(i)).as_signed() == Some(i),
{
}

/// A member whose key no earlier member has is the one under its key.
pub proof fn lemma_lookup_at(m: Seq<(Seq<char>, JsonValue)>, i: int)
    requires
        0 <= i < m.len(),
        forall|k: int| 0 <= k < i ==> (#[trigger] m[k]).0 != m[i].0,
    ensures
        lookup(m, m[i].0) == Some(m[i].1),
        JsonValue::Object(m).get(m[i].0) == Some(m[i].1),
        JsonValue::Object(m).field(m[i].0) == m[i].1,
{
    lemma_lookup_skips(m, m[i].0, i);
    assert(m.skip(i)[0] == m[i]);
}

} // verus!
