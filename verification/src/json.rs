//! JSON values: what they hold, how they are read and built.
use serde_json::Value;
use vstd::prelude::*;
use vstd::utf8::{decode_utf8, valid_utf8};

verus! {

// ---- what a value holds ----------------------------------------------------

/// `serde_json::Value`, carried as an opaque value; what it holds is its [`tree`].
#[verifier::external_type_specification]
#[verifier::external_body]
pub struct ExValue(serde_json::Value);

/// What a JSON value holds. A number is a natural number that fits 64 bits, a negative integer
/// that does, or any other, by the bits of its double.
pub enum Json {
    Null,
    Bool(bool),
    Nat(u64),
    Neg(i64),
    Real(u64),
    Text(Seq<char>),
    List(Seq<Json>),
    Object(Map<Seq<char>, Json>),
}

/// What a `serde_json::Value` holds.
pub uninterp spec fn tree(v: Value) -> Json;

/// What each value of a list holds.
pub open spec fn trees(vs: Seq<Value>) -> Seq<Json> {
    Seq::new(vs.len(), |i: int| tree(vs[i]))
}

/// No part is a number with a fraction, and nothing is nested deeper than `depth`.
pub open spec fn plain(t: Json, depth: nat) -> bool
    decreases depth,
{
    match t {
        Json::Real(_) => false,
        Json::List(s) => depth > 0 && forall|i: int|
            0 <= i < s.len() ==> plain(#[trigger] s[i], (depth - 1) as nat),
        Json::Object(m) => depth > 0 && forall|k: Seq<char>|
            m.dom().contains(k) ==> plain(#[trigger] m[k], (depth - 1) as nat),
        _ => true,
    }
}

/// A double that is well inside the range of doubles: its magnitude is below two to the 1009.
pub open spec fn in_range(bits: u64) -> bool {
    bits % 0x8000_0000_0000_0000 < 0x7f00_0000_0000_0000
}

/// Every number with a fraction is well inside the range of doubles, and nothing is nested deeper
/// than `depth`.
pub open spec fn modest(t: Json, depth: nat) -> bool
    decreases depth,
{
    match t {
        Json::Real(b) => in_range(b),
        Json::List(s) => depth > 0 && forall|i: int|
            0 <= i < s.len() ==> modest(#[trigger] s[i], (depth - 1) as nat),
        Json::Object(m) => depth > 0 && forall|k: Seq<char>|
            m.dom().contains(k) ==> modest(#[trigger] m[k], (depth - 1) as nat),
        _ => true,
    }
}

/// The two hold the same, but for the values of their numbers with fractions.
pub open spec fn alike(t: Json, u: Json, depth: nat) -> bool
    decreases depth,
{
    match (t, u) {
        (Json::Real(_), Json::Real(_)) => true,
        (Json::List(s), Json::List(r)) => depth > 0 && s.len() == r.len() && forall|i: int|
            0 <= i < s.len() ==> alike(#[trigger] s[i], r[i], (depth - 1) as nat),
        (Json::Object(m), Json::Object(n)) => depth > 0 && m.dom() == n.dom() && forall|
            k: Seq<char>,
        | m.dom().contains(k) ==> alike(#[trigger] m[k], n[k], (depth - 1) as nat),
        _ => t == u,
    }
}

/// What was read is there, and alike to what was written.
pub open spec fn read_back(t: Json, read: Option<Json>) -> bool {
    match read {
        Some(u) => alike(t, u, 64),
        None => false,
    }
}

/// Without fractions a value is well inside the range, and nothing but itself is alike.
pub proof fn lemma_plain(t: Json, u: Json, depth: nat)
    requires
        plain(t, depth),
    ensures
        modest(t, depth),
        alike(t, u, depth) ==> t == u,
    decreases depth,
{
    match t {
        Json::List(s) => {
            assert forall|i: int| 0 <= i < s.len() implies modest(
                #[trigger] s[i],
                (depth - 1) as nat,
            ) by {
                lemma_plain(s[i], s[i], (depth - 1) as nat);
            }
            if let Json::List(r) = u {
                if alike(t, u, depth) {
                    assert forall|i: int| 0 <= i < s.len() implies s[i] == r[i] by {
                        lemma_plain(s[i], r[i], (depth - 1) as nat);
                    }
                    assert(s =~= r);
                }
            }
        },
        Json::Object(m) => {
            assert forall|k: Seq<char>| m.dom().contains(k) implies modest(
                #[trigger] m[k],
                (depth - 1) as nat,
            ) by {
                lemma_plain(m[k], m[k], (depth - 1) as nat);
            }
            if let Json::Object(n) = u {
                if alike(t, u, depth) {
                    assert forall|k: Seq<char>| m.dom().contains(k) implies m[k] == n[k] by {
                        lemma_plain(m[k], n[k], (depth - 1) as nat);
                    }
                    assert(m =~= n);
                }
            }
        },
        _ => {},
    }
}

// ---- reading and writing text ----------------------------------------------

/// What `serde_json::from_str` reads from a text, if anything.
pub uninterp spec fn parsed(text: Seq<char>) -> Option<Json>;

/// What `serde_json::Value` writes itself as.
pub uninterp spec fn written(t: Json) -> Seq<char>;

/// `serde_json::from_str`: reads a whole text as one JSON value, or finds that it is none.
#[verifier::external_body]
pub(crate) fn parse(text: &str) -> (r: Option<Value>)
    ensures
        match r {
            Some(v) => parsed(text@) == Some(tree(v)),
            None => parsed(text@) is None,
        },
{
    serde_json::from_str(text).ok()
}

/// `serde_json::from_slice`: reads bytes that are UTF-8 as `serde_json::from_str` reads the text
/// they encode, and reads nothing from bytes that are not.
#[verifier::external_body]
pub(crate) fn parse_bytes(bytes: &[u8]) -> (r: Option<Value>)
    ensures
        match r {
            Some(v) => valid_utf8(bytes@) && parsed(decode_utf8(bytes@)) == Some(tree(v)),
            None => valid_utf8(bytes@) ==> parsed(decode_utf8(bytes@)) is None,
        },
{
    serde_json::from_slice(bytes).ok()
}

/// The compact text of a value, from its `Display`. Where nothing is nested deeper than 64 (the
/// reader stops at 127) and no double is near the end of the range (there the reader may find it
/// out of range), the text is read back as what the value holds, but that a number with a
/// fraction may come back with another last digit.
#[verifier::external_body]
pub(crate) fn render(v: &Value) -> (r: String)
    ensures
        r@ == written(tree(*v)),
        modest(tree(*v), 64) ==> read_back(tree(*v), parsed(r@)),
{
    v.to_string()
}

// ---- looking inside --------------------------------------------------------

/// `serde_json::Value::get` with a key: the entry of an object, where it has one.
#[verifier::external_body]
pub(crate) fn field<'a>(v: &'a Value, key: &str) -> (r: Option<&'a Value>)
    ensures
        match r {
            Some(x) => tree(*v) matches Json::Object(m) && m.dom().contains(key@) && m[key@]
                == tree(*x),
            None => tree(*v) matches Json::Object(m) ==> !m.dom().contains(key@),
        },
{
    v.get(key)
}

/// `serde_json::Value::as_str`: the text, where the value is one.
#[verifier::external_body]
pub(crate) fn text(v: &Value) -> (r: Option<&str>)
    ensures
        match r {
            Some(s) => tree(*v) == Json::Text(s@),
            None => !(tree(*v) is Text),
        },
{
    v.as_str()
}

/// `serde_json::Value::as_u64`: the number, where the value is a natural one.
#[verifier::external_body]
pub(crate) fn nat_of(v: &Value) -> (r: Option<u64>)
    ensures
        match r {
            Some(n) => tree(*v) == Json::Nat(n),
            None => !(tree(*v) is Nat),
        },
{
    v.as_u64()
}

/// `serde_json::Value::as_array`: the values of a list, where the value is one.
#[verifier::external_body]
pub(crate) fn list(v: &Value) -> (r: Option<&Vec<Value>>)
    ensures
        match r {
            Some(vs) => tree(*v) == Json::List(trees(vs@)),
            None => !(tree(*v) is List),
        },
{
    v.as_array()
}

/// What a number is as a double.
pub uninterp spec fn as_double(t: Json) -> Json;

/// `serde_json::Value::as_f64`, put back into a value: a number as a double, which a number with a
/// fraction is already. What is no number is none.
#[verifier::external_body]
pub(crate) fn double(v: &Value) -> (r: Option<Value>)
    ensures
        match r {
            Some(x) => (tree(*v) is Nat || tree(*v) is Neg || tree(*v) is Real) && tree(x)
                == as_double(tree(*v)) && tree(x) is Real && (tree(*v) is Real ==> tree(x)
                == tree(*v)),
            None => !(tree(*v) is Nat || tree(*v) is Neg || tree(*v) is Real),
        },
{
    v.as_f64().map(Value::from)
}

/// The `Clone` of `serde_json::Value`: a copy that holds the same.
#[verifier::external_body]
pub(crate) fn copy(v: &Value) -> (r: Value)
    ensures
        tree(r) == tree(*v),
{
    v.clone()
}

/// The text of an object's entry.
pub open spec fn text_at(t: Json, key: Seq<char>) -> Option<Seq<char>> {
    match t {
        Json::Object(m) => if m.dom().contains(key) {
            match m[key] {
                Json::Text(s) => Some(s),
                _ => None,
            }
        } else {
            None
        },
        _ => None,
    }
}

/// The natural number of an object's entry.
pub open spec fn nat_at(t: Json, key: Seq<char>) -> Option<u64> {
    match t {
        Json::Object(m) => if m.dom().contains(key) {
            match m[key] {
                Json::Nat(n) => Some(n),
                _ => None,
            }
        } else {
            None
        },
        _ => None,
    }
}

/// The list of an object's entry.
pub open spec fn list_at(t: Json, key: Seq<char>) -> Option<Seq<Json>> {
    match t {
        Json::Object(m) => if m.dom().contains(key) {
            match m[key] {
                Json::List(s) => Some(s),
                _ => None,
            }
        } else {
            None
        },
        _ => None,
    }
}

/// An object's entry.
pub open spec fn entry_at(t: Json, key: Seq<char>) -> Option<Json> {
    match t {
        Json::Object(m) => if m.dom().contains(key) {
            Some(m[key])
        } else {
            None
        },
        _ => None,
    }
}

/// The text of an object's entry.
pub fn text_field<'a>(v: &'a Value, key: &str) -> (r: Option<&'a str>)
    ensures
        text_at(tree(*v), key@) == (match r {
            Some(s) => Some(s@),
            None => None,
        }),
{
    match field(v, key) {
        Some(x) => text(x),
        None => None,
    }
}

/// The text of an object's entry, or another where there is none.
pub fn text_or(v: &Value, key: &str, other: &str) -> (r: String)
    ensures
        r@ == (match text_at(tree(*v), key@) {
            Some(s) => s,
            None => other@,
        }),
{
    match text_field(v, key) {
        Some(s) => s.to_owned(),
        None => other.to_owned(),
    }
}

/// Whether an object's entry is this very text.
pub fn text_is(v: &Value, key: &str, s: &str) -> (r: bool)
    ensures
        r == (text_at(tree(*v), key@) == Some(s@)),
{
    match text_field(v, key) {
        Some(x) => x.eq(s),
        None => false,
    }
}

/// The natural number of an object's entry.
pub fn nat_field(v: &Value, key: &str) -> (r: Option<u64>)
    ensures
        r == nat_at(tree(*v), key@),
{
    match field(v, key) {
        Some(x) => nat_of(x),
        None => None,
    }
}

/// The list of an object's entry.
pub fn list_field<'a>(v: &'a Value, key: &str) -> (r: Option<&'a Vec<Value>>)
    ensures
        list_at(tree(*v), key@) == (match r {
            Some(vs) => Some(trees(vs@)),
            None => None,
        }),
{
    match field(v, key) {
        Some(x) => list(x),
        None => None,
    }
}

// ---- building --------------------------------------------------------------

/// `serde_json::Value::Null`.
#[verifier::external_body]
pub(crate) fn null() -> (r: Value)
    ensures
        tree(r) == Json::Null,
{
    Value::Null
}

/// `serde_json::Value::from` a string slice: a text.
#[verifier::external_body]
pub(crate) fn from_text(s: &str) -> (r: Value)
    ensures
        tree(r) == Json::Text(s@),
{
    Value::from(s)
}

/// `serde_json::Value::from` a `u64`: a natural number.
#[verifier::external_body]
pub(crate) fn from_nat(n: u64) -> (r: Value)
    ensures
        tree(r) == Json::Nat(n),
{
    Value::from(n)
}

/// `serde_json::Value::from` a `bool`.
#[verifier::external_body]
pub(crate) fn from_bool(b: bool) -> (r: Value)
    ensures
        tree(r) == Json::Bool(b),
{
    Value::from(b)
}

/// `serde_json::Value::from` a `Vec` of values: a list.
#[verifier::external_body]
pub(crate) fn from_list(vs: Vec<Value>) -> (r: Value)
    ensures
        tree(r) == Json::List(trees(vs@)),
{
    Value::from(vs)
}

/// An object with one entry more, or with another value for one; null is an object without
/// entries.
pub open spec fn with(t: Json, key: Seq<char>, x: Json) -> Json {
    match t {
        Json::Object(m) => Json::Object(m.insert(key, x)),
        _ => Json::Object(Map::empty().insert(key, x)),
    }
}

/// Assignment through `IndexMut` of `serde_json::Value` with a key: sets an object's entry. Null
/// becomes an object first; on any other value it panics.
#[verifier::external_body]
pub(crate) fn put(v: &mut Value, key: &str, x: Value)
    requires
        tree(*old(v)) is Object || tree(*old(v)) is Null,
    ensures
        tree(*final(v)) == with(tree(*old(v)), key@, tree(x)),
{
    v[key] = x;
}

/// Sets an object's entry to a text.
pub(crate) fn put_text(v: &mut Value, key: &str, s: &str)
    requires
        tree(*old(v)) is Object || tree(*old(v)) is Null,
    ensures
        tree(*final(v)) == with(tree(*old(v)), key@, Json::Text(s@)),
{
    put(v, key, from_text(s));
}

/// Sets an object's entry to a natural number.
pub(crate) fn put_nat(v: &mut Value, key: &str, n: u64)
    requires
        tree(*old(v)) is Object || tree(*old(v)) is Null,
    ensures
        tree(*final(v)) == with(tree(*old(v)), key@, Json::Nat(n)),
{
    put(v, key, from_nat(n));
}

/// An object whose first entry says what message it is.
pub(crate) fn message(kind: &str) -> (r: Value)
    ensures
        tree(r) == with(Json::Null, "t"@, Json::Text(kind@)),
{
    let mut v = null();
    put_text(&mut v, "t", kind);
    v
}

// ---- laws ------------------------------------------------------------------

/// An entry that was set is there as it was set, and every other entry is as it was; null has none
/// to begin with.
pub proof fn entries_are_set_one_by_one(t: Json, key: Seq<char>, x: Json, other: Seq<char>)
    ensures
        entry_at(with(t, key, x), key) == Some(x),
        other != key && (t is Object || t is Null) ==> entry_at(with(t, key, x), other) == entry_at(
            t,
            other,
        ),
        entry_at(Json::Null, key) is None,
{
}

/// Of the entries of an object a text is read as that text, a natural number as that number and a
/// list as that list, and an entry of any other kind as none; what is no object has no entries.
pub proof fn entries_are_read_by_their_kind(m: Map<Seq<char>, Json>, key: Seq<char>, t: Json)
    ensures
        m.dom().contains(key) ==> {
            let o = Json::Object(m);
            &&& entry_at(o, key) == Some(m[key])
            &&& m[key] matches Json::Text(s) ==> text_at(o, key) == Some(s)
            &&& m[key] matches Json::Nat(n) ==> nat_at(o, key) == Some(n)
            &&& m[key] matches Json::List(l) ==> list_at(o, key) == Some(l)
            &&& !(m[key] is Text) ==> text_at(o, key) is None
            &&& !(m[key] is Nat) ==> nat_at(o, key) is None
            &&& !(m[key] is List) ==> list_at(o, key) is None
        },
        !m.dom().contains(key) ==> {
            let o = Json::Object(m);
            &&& entry_at(o, key) is None
            &&& text_at(o, key) is None
            &&& nat_at(o, key) is None
            &&& list_at(o, key) is None
        },
        !(t is Object) ==> entry_at(t, key) is None && text_at(t, key) is None && nat_at(t, key)
            is None && list_at(t, key) is None,
{
}

} // verus!
