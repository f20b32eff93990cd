//! JSON documents, and reading the properties of a received one.

use crate::float::{nearest, of_integer, Double, Single};
use crate::text::{joined, same};
use vstd::prelude::*;
use vstd::string::*;

verus! {

/// What went wrong, in the words that a client gets to see.
#[derive(Debug, Clone)]
pub struct Error(pub String);

impl View for Error {
    type V = Seq<char>;

    open spec fn view(&self) -> Seq<char> {
        self.0@
    }
}

impl Error {
    pub fn new(s: &str) -> (e: Error)
        ensures
            e@ == s@,
    {
        Error(s.to_owned())
    }
}

/// A number of a document.
///
/// A document that was read holds finite `Double` numbers only. In a document that
/// is to be written a number keeps the form that it has in the device: a `Single`
/// is written with the digits that tell it from its binary32 neighbours, and a
/// `Ratio` is the quotient of its parts. What is not finite is written as `null`,
/// and is no number to a reader.
#[derive(Clone, Copy, Debug, PartialEq, Eq, Structural)]
pub enum Number {
    Unsigned(u64),
    Signed(i64),
    Single(Single),
    Double(Double),
    Ratio(u32, u32),
}

impl Number {
    /// The binary64 value that is nearest to a number, if it is one.
    pub open spec fn value(self) -> Option<Double> {
        match self {
            Number::Unsigned(n) => Some(of_integer(n as int)),
            Number::Signed(n) => Some(of_integer(n as int)),
            Number::Single(s) => if s.finite() {
                Some(s.widened())
            } else {
                None
            },
            Number::Double(d) => if d.finite() {
                Some(d)
            } else {
                None
            },
            Number::Ratio(a, b) => if b > 0 {
                Some(nearest(false, a as int, b as int, 1075))
            } else {
                None
            },
        }
    }

    /// The value of a number in binary64, which is how every number is read.
    pub fn as_double(self) -> (r: Option<Double>)
        ensures
            r == self.value(),
    {
        match self {
            Number::Unsigned(n) => Some(Double::from_unsigned(n)),
            Number::Signed(n) => Some(Double::from_signed(n)),
            Number::Single(s) => if s.is_finite() {
                Some(s.widen())
            } else {
                None
            },
            Number::Double(d) => if d.is_finite() {
                Some(d)
            } else {
                None
            },
            Number::Ratio(a, b) => if b > 0 {
                Some(Double::quotient(a, b))
            } else {
                None
            },
        }
    }
}

/// A JSON document.
#[derive(Debug)]
pub enum Json {
    Null,
    Bool(bool),
    Number(Number),
    Str(String),
    Array(Vec<Json>),
    /// The members, in order.
    Object(Vec<(String, Json)>),
}

/// What a document says.
pub ghost enum JsonTree {
    Null,
    Bool(bool),
    Number(Number),
    Str(Seq<char>),
    Array(Seq<JsonTree>),
    Object(Seq<(Seq<char>, JsonTree)>),
}

/// What the document `j` says.
pub open spec fn tree(j: Json) -> JsonTree
    decreases j, 0nat,
{
    match j {
        Json::Null => JsonTree::Null,
        Json::Bool(b) => JsonTree::Bool(b),
        Json::Number(n) => JsonTree::Number(n),
        Json::Str(s) => JsonTree::Str(s@),
        Json::Array(v) => JsonTree::Array(trees(v@)),
        Json::Object(v) => JsonTree::Object(members(v@)),
    }
}

pub open spec fn trees(v: Seq<Json>) -> Seq<JsonTree>
    decreases v, v.len(),
{
    if v.len() == 0 {
        Seq::empty()
    } else {
        trees(v.drop_last()).push(tree(v.last()))
    }
}

pub open spec fn members(v: Seq<(String, Json)>) -> Seq<(Seq<char>, JsonTree)>
    decreases v, v.len(),
{
    if v.len() == 0 {
        Seq::empty()
    } else {
        members(v.drop_last()).push((v.last().0@, tree(v.last().1)))
    }
}

impl View for Json {
    type V = JsonTree;

    open spec fn view(&self) -> JsonTree {
        tree(*self)
    }
}

/// The value of the member `key`, if `t` is an object that has it.
pub open spec fn field(t: JsonTree, key: Seq<char>) -> Option<JsonTree> {
    match t {
        JsonTree::Object(m) => member(m, key),
        _ => None,
    }
}

/// The value of the first member named `key`.
pub open spec fn member(m: Seq<(Seq<char>, JsonTree)>, key: Seq<char>) -> Option<JsonTree>
    decreases m.len(),
{
    if m.len() == 0 {
        None
    } else if m[0].0 == key {
        Some(m[0].1)
    } else {
        member(m.drop_first(), key)
    }
}

/// The members after the member `key` was given the value `v`: the first of
/// that name changes, or a new one comes last.
pub open spec fn with_member(m: Seq<(Seq<char>, JsonTree)>, key: Seq<char>, v: JsonTree) -> Seq<
    (Seq<char>, JsonTree),
>
    decreases m.len(),
{
    if m.len() == 0 {
        seq![(key, v)]
    } else if m[0].0 == key {
        m.update(0, (key, v))
    } else {
        seq![m[0]] + with_member(m.drop_first(), key, v)
    }
}

pub proof fn lemma_member(m: Seq<(Seq<char>, JsonTree)>, key: Seq<char>, i: int)
    requires
        0 <= i <= m.len(),
        forall|j: int| 0 <= j < i ==> (#[trigger] m[j]).0 != key,
    ensures
        i == m.len() ==> member(m, key) is None,
        i == m.len() ==> forall|v: JsonTree| #[trigger]
            with_member(m, key, v) == m.push((key, v)),
        i < m.len() && m[i].0 == key ==> member(m, key) == Some(m[i].1),
        i < m.len() && m[i].0 == key ==> forall|v: JsonTree| #[trigger]
            with_member(m, key, v) == m.update(i, (key, v)),
    decreases m.len(),
{
    if i > 0 {
        let t = m.drop_first();
        assert forall|j: int| 0 <= j < i - 1 implies (#[trigger] t[j]).0 != key by {
            assert(t[j] == m[j + 1]);
        }
        lemma_member(t, key, i - 1);
        assert(m[0].0 != key);
        if i == m.len() {
            assert forall|v: JsonTree| #[trigger] with_member(m, key, v) == m.push((key, v)) by {
                assert(with_member(t, key, v) == t.push((key, v)));
                assert(seq![m[0]] + t.push((key, v)) =~= m.push((key, v)));
            }
        } else if m[i].0 == key {
            assert(t[i - 1] == m[i]);
            assert forall|v: JsonTree| #[trigger]
                with_member(m, key, v) == m.update(i, (key, v)) by {
                assert(with_member(t, key, v) == t.update(i - 1, (key, v)));
                assert(seq![m[0]] + t.update(i - 1, (key, v)) =~= m.update(i, (key, v)));
            }
        }
    } else if m.len() == 0 {
        assert forall|v: JsonTree| #[trigger] with_member(m, key, v) == m.push((key, v)) by {
            assert(seq![(key, v)] =~= m.push((key, v)));
        }
    }
}

/// Member by member.
pub proof fn lemma_members_at(v: Seq<(String, Json)>)
    ensures
        members(v).len() == v.len(),
        forall|i: int|
            0 <= i < v.len() ==> #[trigger] members(v)[i] == (v[i].0@, tree(v[i].1)),
    decreases v.len(),
{
    if v.len() > 0 {
        lemma_members_at(v.drop_last());
    }
}

/// Element by element.
pub proof fn lemma_trees_at(v: Seq<Json>)
    ensures
        trees(v).len() == v.len(),
        forall|i: int| 0 <= i < v.len() ==> #[trigger] trees(v)[i] == tree(v[i]),
    decreases v.len(),
{
    if v.len() > 0 {
        lemma_trees_at(v.drop_last());
    }
}

impl Json {
    /// The value of the member `key`, if this is an object that has it.
    pub fn get(&self, key: &str) -> (r: Option<&Json>)
        ensures
            match r {
                Some(j) => field(self@, key@) == Some(j@),
                None => field(self@, key@) is None,
            },
    {
        match self {
            Json::Object(m) => {
                proof {
                    lemma_members_at(m@);
                }
                let mut i: usize = 0;
                while i < m.len()
                    invariant
                        i <= m.len(),
                        members(m@).len() == m.len(),
                        forall|j: int|
                            0 <= j < m.len() ==> #[trigger] members(m@)[j] == (
                                m@[j].0@,
                                tree(m@[j].1),
                            ),
                        forall|j: int| 0 <= j < i ==> (#[trigger] members(m@)[j]).0 != key@,
                        self@ == JsonTree::Object(members(m@)),
                    decreases m.len() - i,
                {
                    if same(m[i].0.as_str(), key) {
                        proof {
                            lemma_member(members(m@), key@, i as int);
                        }
                        return Some(&m[i].1);
                    }
                    i += 1;
                }
                proof {
                    lemma_member(members(m@), key@, i as int);
                }
                None
            },
            _ => None,
        }
    }
}

/// Whether a document holds finite `Double` numbers only, as one that was read does.
pub open spec fn as_read(t: JsonTree) -> bool
    decreases t,
{
    match t {
        JsonTree::Number(n) => n matches Number::Double(d) && d.finite(),
        JsonTree::Array(a) => forall|i: int| 0 <= i < a.len() ==> as_read(#[trigger] a[i]),
        JsonTree::Object(m) => forall|i: int| 0 <= i < m.len() ==> as_read((#[trigger] m[i]).1),
        _ => true,
    }
}

/// The value of `t`, if it is a number.
pub open spec fn number_of(t: JsonTree) -> Option<Double> {
    match t {
        JsonTree::Number(n) => n.value(),
        _ => None,
    }
}

impl Json {
    /// The value of this, if it is a number.
    pub fn number(&self) -> (r: Option<Double>)
        ensures
            r == number_of(self@),
    {
        match self {
            Json::Number(n) => n.as_double(),
            _ => None,
        }
    }
}

fn number_prop(n: &Json, prop: &str) -> (r: Option<Double>)
    ensures
        r == number_at(n@, prop@),
{
    match n.get(prop) {
        Some(j) => j.number(),
        None => None,
    }
}

/// The string property `prop` of `n`.
pub open spec fn string_at(n: JsonTree, prop: Seq<char>) -> Option<Seq<char>> {
    match field(n, prop) {
        Some(JsonTree::Str(s)) => Some(s),
        _ => None,
    }
}

/// The property `prop` of `n`, if it is `true` or `false`.
pub open spec fn bool_at(n: JsonTree, prop: Seq<char>) -> Option<bool> {
    match field(n, prop) {
        Some(JsonTree::Bool(b)) => Some(b),
        _ => None,
    }
}

/// The property `prop` of `n`, if it is a number.
pub open spec fn number_at(n: JsonTree, prop: Seq<char>) -> Option<Double> {
    match field(n, prop) {
        Some(t) => number_of(t),
        None => None,
    }
}

/// The property `prop` of `n` as an integer, if it is a number.
pub open spec fn int_at(n: JsonTree, prop: Seq<char>) -> Option<i64> {
    match number_at(n, prop) {
        Some(d) => Some(d.integer()),
        None => None,
    }
}

/// The elements of the property `prop` of `n`, if it is an array.
pub open spec fn array_at(n: JsonTree, prop: Seq<char>) -> Option<Seq<JsonTree>> {
    match field(n, prop) {
        Some(JsonTree::Array(a)) => Some(a),
        _ => None,
    }
}

pub fn json_string_prop(n: &Json, prop: &str) -> (r: Result<String, Error>)
    ensures
        match r {
            Ok(s) => string_at(n@, prop@) == Some(s@),
            Err(e) => string_at(n@, prop@) is None && e@ == "JSON missing string property: "@
                + prop@,
        },
{
    match n.get(prop) {
        Some(Json::Str(s)) => Ok(s.clone()),
        _ => Err(Error(joined("JSON missing string property: ", prop))),
    }
}

pub fn json_string_prop_def(n: &Json, prop: &str, def: &str) -> (r: String)
    ensures
        r@ == string_at(n@, prop@).unwrap_or(def@),
{
    match n.get(prop) {
        Some(Json::Str(s)) => s.clone(),
        _ => def.to_owned(),
    }
}

pub fn json_bool_prop(n: &Json, prop: &str) -> (r: Result<bool, Error>)
    ensures
        match r {
            Ok(b) => bool_at(n@, prop@) == Some(b),
            Err(e) => bool_at(n@, prop@) is None && e@ == "JSON missing bool property: "@ + prop@,
        },
{
    match n.get(prop) {
        Some(Json::Bool(b)) => Ok(*b),
        _ => Err(Error(joined("JSON missing bool property: ", prop))),
    }
}

pub fn json_bool_prop_def(n: &Json, prop: &str, def: bool) -> (r: bool)
    ensures
        r == bool_at(n@, prop@).unwrap_or(def),
{
    match n.get(prop) {
        Some(Json::Bool(b)) => *b,
        _ => def,
    }
}

pub fn json_int_prop(n: &Json, prop: &str) -> (r: Result<i64, Error>)
    ensures
        match r {
            Ok(i) => int_at(n@, prop@) == Some(i),
            Err(e) => int_at(n@, prop@) is None && e@ == "JSON missing int property: "@ + prop@,
        },
{
    match number_prop(n, prop) {
        Some(d) => Ok(d.to_int()),
        None => Err(Error(joined("JSON missing int property: ", prop))),
    }
}

pub fn json_int_prop_def(n: &Json, prop: &str, def: i64) -> (r: i64)
    ensures
        r == int_at(n@, prop@).unwrap_or(def),
{
    match number_prop(n, prop) {
        Some(d) => d.to_int(),
        None => def,
    }
}

pub fn json_float_prop(n: &Json, prop: &str) -> (r: Result<Double, Error>)
    ensures
        match r {
            Ok(d) => number_at(n@, prop@) == Some(d),
            Err(e) => number_at(n@, prop@) is None && e@ == "JSON missing float property: "@
                + prop@,
        },
{
    match number_prop(n, prop) {
        Some(d) => Ok(d),
        None => Err(Error(joined("JSON missing float property: ", prop))),
    }
}

pub fn json_float_prop_def(n: &Json, prop: &str, def: Double) -> (r: Double)
    ensures
        r == number_at(n@, prop@).unwrap_or(def),
{
    match number_prop(n, prop) {
        Some(d) => d,
        None => def,
    }
}

// ---- writing ----

/// Appends a member.
pub fn put(o: &mut Vec<(String, Json)>, key: &str, value: Json)
    ensures
        members(final(o)@) == members(old(o)@).push((key@, value@)),
{
    let ghost before = o@;
    o.push((key.to_owned(), value));
    assert(o@.drop_last() =~= before);
}

pub fn put_text(o: &mut Vec<(String, Json)>, key: &str, value: &str)
    ensures
        members(final(o)@) == members(old(o)@).push((key@, JsonTree::Str(value@))),
{
    put(o, key, Json::Str(value.to_owned()));
}

pub fn put_bool(o: &mut Vec<(String, Json)>, key: &str, value: bool)
    ensures
        members(final(o)@) == members(old(o)@).push((key@, JsonTree::Bool(value))),
{
    put(o, key, Json::Bool(value));
}

pub fn put_number(o: &mut Vec<(String, Json)>, key: &str, value: Number)
    ensures
        members(final(o)@) == members(old(o)@).push((key@, JsonTree::Number(value))),
{
    put(o, key, Json::Number(value));
}

/// Sets the member `key`: the first of that name changes, or a new one comes
/// last.
pub fn set_member(o: &mut Vec<(String, Json)>, key: &str, value: Json)
    ensures
        members(final(o)@) == with_member(members(old(o)@), key@, value@),
{
    let ghost before = o@;
    proof {
        lemma_members_at(o@);
    }
    let mut i: usize = 0;
    while i < o.len()
        invariant
            i <= o.len(),
            o@ == before,
            before == old(o)@,
            members(o@).len() == o.len(),
            forall|j: int|
                0 <= j < o.len() ==> #[trigger] members(o@)[j] == (o@[j].0@, tree(o@[j].1)),
            forall|j: int| 0 <= j < i ==> (#[trigger] members(o@)[j]).0 != key@,
        decreases o.len() - i,
    {
        if same(o[i].0.as_str(), key) {
            proof {
                lemma_member(members(o@), key@, i as int);
            }
            o.set(i, (key.to_owned(), value));
            proof {
                lemma_members_at(o@);
                assert(members(o@) =~= members(before).update(i as int, (key@, value@)));
                assert(members(o@) == with_member(members(before), key@, value@));
            }
            return;
        }
        i += 1;
    }
    proof {
        lemma_member(members(o@), key@, i as int);
        assert(with_member(members(before), key@, value@) == members(before).push((key@, value@)));
    }
    put(o, key, value);
}

/// Appends an element.
pub fn add_element(a: &mut Vec<Json>, value: Json)
    ensures
        trees(final(a)@) == trees(old(a)@).push(value@),
{
    let ghost before = a@;
    a.push(value);
    assert(a@.drop_last() =~= before);
}

// ---- reading text ----

/// A JSON value of `serde_json`.
#[verifier::external_type_specification]
#[verifier::external_body]
pub struct ExValue(serde_json::Value);

/// What a `serde_json::Value` holds: the same tree, every number as the
/// binary64 value that `Number::as_f64` gives.
pub uninterp spec fn held(value: serde_json::Value) -> JsonTree;

/// What `serde_json::from_str` makes of a text: the document, or the message
/// of the error.
pub uninterp spec fn parsed(text: Seq<char>) -> Result<JsonTree, Seq<char>>;

/// `serde_json::from_str`: the result depends on the text alone.
#[verifier::external_body]
fn value_from_text(text: &str) -> (r: Result<serde_json::Value, String>)
    ensures
        match r {
            Ok(v) => parsed(text@) == Ok::<JsonTree, Seq<char>>(held(v)),
            Err(m) => parsed(text@) == Err::<JsonTree, Seq<char>>(m@),
        },
{
    match serde_json::from_str(text) {
        Ok(v) => Ok(v),
        Err(e) => Err(e.to_string()),
    }
}

/// Takes a `serde_json::Value` apart: each variant becomes the variant of the
/// same name, and every number the bits of what `Number::as_f64` gives, which is
/// finite.
#[verifier::external_body]
fn document_of_value(value: serde_json::Value) -> (j: Json)
    ensures
        j@ == held(value),
        as_read(j@),
{
    match value {
        serde_json::Value::Null => Json::Null,
        serde_json::Value::Bool(b) => Json::Bool(b),
        serde_json::Value::Number(n) => {
            let bits = n.as_f64().map(|x| x.to_bits()).unwrap_or(0);
            Json::Number(Number::Double(Double { bits }))
        },
        serde_json::Value::String(s) => Json::Str(s),
        serde_json::Value::Array(a) => Json::Array(a.into_iter().map(document_of_value).collect()),
        serde_json::Value::Object(o) => {
            Json::Object(o.into_iter().map(|(k, v)| (k, document_of_value(v))).collect())
        },
    }
}

/// Reads a document.
pub fn parse_json(text: &str) -> (r: Result<Json, Error>)
    ensures
        match parsed(text@) {
            Ok(t) => r matches Ok(j) && j@ == t && as_read(t),
            Err(m) => r matches Err(e) && e@ == "JSON parse error: "@ + m,
        },
{
    match value_from_text(text) {
        Ok(v) => Ok(document_of_value(v)),
        Err(m) => Err(Error(joined("JSON parse error: ", m.as_str()))),
    }
}

} // verus!
