//! Documents: the JSON values that requests carry and that the store keeps.

use crate::double;
use crate::text::{decimal, decimal_text, same_text, trim, trimmed};
use vstd::prelude::*;

verus! {

/// A number in a document.
pub enum Number {
    /// An integer that is not negative.
    PosInt(u64),
    /// A negative integer.
    NegInt(i64),
    /// Any other number: the bits of the double, and how the document that it was read from writes
    /// it. A number that was computed here has not been written yet.
    Float { bits: u64, text: Option<String> },
}

/// A JSON value. Where an object names a key twice, the later entry counts.
pub enum Value {
    Null,
    Bool(bool),
    Number(Number),
    Text(String),
    Array(Vec<Value>),
    Object(Vec<(String, Value)>),
}

/// What a `Number` stands for.
pub enum Num {
    PosInt(u64),
    NegInt(i64),
    Float { bits: u64, text: Option<Seq<char>> },
}

/// What a `Value` stands for.
pub enum Json {
    Null,
    Bool(bool),
    Number(Num),
    Text(Seq<char>),
    Array(Seq<Json>),
    Object(Map<Seq<char>, Json>),
}

/// The object with the given entries, in which a later entry replaces an earlier one.
pub open spec fn entries(es: Seq<(Seq<char>, Json)>) -> Map<Seq<char>, Json>
    decreases es.len(),
{
    if es.len() == 0 {
        Map::empty()
    } else {
        entries(es.drop_last()).insert(es.last().0, es.last().1)
    }
}

impl Number {
    /// What the number stands for.
    pub open spec fn num(self) -> Num {
        match self {
            Number::PosInt(n) => Num::PosInt(n),
            Number::NegInt(n) => Num::NegInt(n),
            Number::Float { bits, text } => Num::Float {
                bits,
                text: match text {
                    Some(t) => Some(t@),
                    None => None,
                },
            },
        }
    }
}

impl Value {
    /// What the value stands for.
    pub open spec fn json(self) -> Json
        decreases self,
    {
        match self {
            Value::Null => Json::Null,
            Value::Bool(b) => Json::Bool(b),
            Value::Number(n) => Json::Number(n.num()),
            Value::Text(s) => Json::Text(s@),
            Value::Array(vs) => Json::Array(
                Seq::new(
                    vs@.len(),
                    |i: int|
                        if 0 <= i < vs@.len() {
                            vs@[i].json()
                        } else {
                            Json::Null
                        },
                ),
            ),
            Value::Object(es) => Json::Object(object(es@)),
        }
    }
}

/// The object with the given entries.
pub open spec fn object(es: Seq<(String, Value)>) -> Map<Seq<char>, Json>
    decreases es,
{
    if es.len() == 0 {
        Map::empty()
    } else {
        object(es.subrange(0, es.len() - 1)).insert(
            es[es.len() - 1].0@,
            es[es.len() - 1].1.json(),
        )
    }
}

impl View for Value {
    type V = Json;

    open spec fn view(&self) -> Json {
        self.json()
    }
}

/// What the elements of a list stand for.
pub open spec fn jsons(vs: Seq<Value>) -> Seq<Json> {
    vs.map_values(|v: Value| v@)
}

/// What the entries of an object stand for.
pub open spec fn pairs(es: Seq<(String, Value)>) -> Seq<(Seq<char>, Json)> {
    es.map_values(|e: (String, Value)| (e.0@, e.1@))
}

/// What the fields of an object under construction stand for.
pub open spec fn fields(es: Seq<(String, Value)>) -> Map<Seq<char>, Json> {
    entries(pairs(es))
}

proof fn lemma_object(es: Seq<(String, Value)>)
    ensures
        object(es) == fields(es),
    decreases es.len(),
{
    if es.len() > 0 {
        let before = es.subrange(0, es.len() - 1);
        lemma_object(before);
        assert(pairs(es).drop_last() =~= pairs(before));
    }
}

/// What an array and an object stand for.
pub broadcast proof fn lemma_composites(v: Value)
    ensures
        #![trigger v.json()]
        match v {
            Value::Array(vs) => v.json() == Json::Array(jsons(vs@)),
            Value::Object(es) => v.json() == Json::Object(fields(es@)),
            _ => true,
        },
{
    match v {
        Value::Array(vs) => {
            assert(v.json()->Array_0 =~= jsons(vs@));
        },
        Value::Object(es) => {
            lemma_object(es@);
        },
        _ => {},
    }
}

/// The last entry with a key decides what the object has under it.
proof fn lemma_lookup(es: Seq<(Seq<char>, Json)>, key: Seq<char>, i: int)
    requires
        -1 <= i < es.len(),
        i >= 0 ==> es[i].0 == key,
        forall|j: int| i < j < es.len() ==> es[j].0 != key,
    ensures
        entries(es).contains_key(key) == (i >= 0),
        i >= 0 ==> entries(es)[key] == es[i].1,
    decreases es.len(),
{
    if es.len() > 0 && i < es.len() - 1 {
        lemma_lookup(es.drop_last(), key, i);
    }
}

/// Replacing the last entry with a key sets what the object has under it.
proof fn lemma_replace(es: Seq<(Seq<char>, Json)>, i: int, e: (Seq<char>, Json))
    requires
        0 <= i < es.len(),
        es[i].0 == e.0,
        forall|j: int| i < j < es.len() ==> es[j].0 != e.0,
    ensures
        entries(es.update(i, e)) == entries(es).insert(e.0, e.1),
    decreases es.len(),
{
    let new = es.update(i, e);
    if i == es.len() - 1 {
        assert(new.drop_last() =~= es.drop_last());
        assert(entries(new) =~= entries(es).insert(e.0, e.1));
    } else {
        assert(new.drop_last() =~= es.drop_last().update(i, e));
        lemma_replace(es.drop_last(), i, e);
        assert(entries(new) =~= entries(es).insert(e.0, e.1));
    }
}

/// The place of the last entry with the key `key`.
fn place(es: &Vec<(String, Value)>, key: &str) -> (r: Option<usize>)
    ensures
        match r {
            Some(i) => i < es@.len() && es@[i as int].0@ == key@ && forall|j: int|
                i < j < es@.len() ==> es@[j].0@ != key@,
            None => forall|j: int| 0 <= j < es@.len() ==> es@[j].0@ != key@,
        },
{
    let mut i: usize = es.len();
    while i > 0
        invariant
            i <= es@.len(),
            forall|j: int| i <= j < es@.len() ==> es@[j].0@ != key@,
        decreases i,
    {
        i = i - 1;
        if same_text(es[i].0.as_str(), key) {
            return Some(i);
        }
    }
    None
}

/// Sets what an object under construction has under `key`.
pub fn put_field(es: &mut Vec<(String, Value)>, key: &str, v: Value)
    ensures
        fields(final(es)@) == fields(old(es)@).insert(key@, v@),
{
    let ghost before = es@;
    let ghost e: (Seq<char>, Json) = (key@, v@);
    let at: Option<usize> = place(es, key);
    match at {
        Some(i) => {
            es.set(i, (key.to_owned(), v));
            proof {
                lemma_replace(pairs(before), i as int, e);
                assert(pairs(es@) =~= pairs(before).update(i as int, e));
            }
        },
        None => {
            es.push((key.to_owned(), v));
            proof {
                assert(pairs(es@).drop_last() =~= pairs(before));
                assert(fields(es@) =~= fields(before).insert(key@, e.1));
            }
        },
    }
}

/// What a value has under `key`; only an object has anything.
pub open spec fn field(v: Json, key: Seq<char>) -> Option<Json> {
    match v {
        Json::Object(m) if m.contains_key(key) => Some(m[key]),
        _ => None,
    }
}

/// What a value that may be missing stands for.
pub open spec fn opt(v: Option<&Value>) -> Option<Json> {
    match v {
        Some(v) => Some(v@),
        None => None,
    }
}

impl Value {
    /// What the value has under `key`.
    pub fn get(&self, key: &str) -> (r: Option<&Value>)
        ensures
            opt(r) == field(self@, key@),
    {
        broadcast use lemma_composites;

        match self {
            Value::Object(es) => match place(es, key) {
                Some(i) => {
                    proof {
                        lemma_lookup(pairs(es@), key@, i as int);
                    }
                    Some(&es[i].1)
                },
                None => {
                    proof {
                        lemma_lookup(pairs(es@), key@, -1);
                    }
                    None
                },
            },
            _ => None,
        }
    }

    /// A copy of the value.
    pub fn copy(&self) -> (r: Value)
        ensures
            r@ == self@,
        decreases self,
    {
        broadcast use lemma_composites;

        match self {
            Value::Null => Value::Null,
            Value::Bool(b) => Value::Bool(*b),
            Value::Number(n) => Value::Number(
                match n {
                    Number::PosInt(n) => Number::PosInt(*n),
                    Number::NegInt(n) => Number::NegInt(*n),
                    Number::Float { bits, text } => Number::Float {
                        bits: *bits,
                        text: match text {
                            Some(t) => Some(t.clone()),
                            None => None,
                        },
                    },
                },
            ),
            Value::Text(s) => Value::Text(s.clone()),
            Value::Array(vs) => {
                let mut out: Vec<Value> = Vec::new();
                let mut i: usize = 0;
                while i < vs.len()
                    invariant
                        i <= vs@.len(),
                        self matches Value::Array(ws) && ws == vs,
                        jsons(out@) == jsons(vs@).take(i as int),
                    decreases vs@.len() - i,
                {
                    let v: Value = vs[i].copy();
                    let ghost before = out@;
                    out.push(v);
                    i = i + 1;
                    proof {
                        assert(jsons(out@) =~= jsons(before).push(v@));
                        assert(jsons(vs@).take(i as int) =~= jsons(vs@).take(i - 1).push(v@));
                    }
                }
                proof {
                    assert(jsons(vs@).take(i as int) =~= jsons(vs@));
                }
                Value::Array(out)
            },
            Value::Object(es) => {
                let mut out: Vec<(String, Value)> = Vec::new();
                let mut i: usize = 0;
                while i < es.len()
                    invariant
                        i <= es@.len(),
                        self matches Value::Object(fs) && fs == es,
                        pairs(out@) == pairs(es@).take(i as int),
                    decreases es@.len() - i,
                {
                    let v: Value = es[i].1.copy();
                    let k: String = es[i].0.clone();
                    let ghost before = out@;
                    let ghost pair: (Seq<char>, Json) = (k@, v@);
                    out.push((k, v));
                    i = i + 1;
                    proof {
                        assert(pairs(out@) =~= pairs(before).push(pair));
                        assert(pairs(es@).take(i as int) =~= pairs(es@).take(i - 1).push(pair));
                    }
                }
                proof {
                    assert(pairs(es@).take(i as int) =~= pairs(es@));
                }
                Value::Object(out)
            },
        }
    }
}

// ----- reading -----

/// How a number is written. One that was computed here is not written yet.
pub open spec fn written(n: Num) -> Seq<char> {
    match n {
        Num::PosInt(n) => decimal(n as int),
        Num::NegInt(n) => decimal(n as int),
        Num::Float { bits, text } => match text {
            Some(t) => trimmed(t),
            None => Seq::empty(),
        },
    }
}

/// The double nearest to a number. No document has a number that is not finite; such bits count as
/// zero.
pub open spec fn bits_of(n: Num) -> u64 {
    match n {
        Num::PosInt(n) => double::of_integer(n as int),
        Num::NegInt(n) => double::of_integer(n as int),
        Num::Float { bits, text } => if double::is_finite(bits) {
            bits
        } else {
            0
        },
    }
}

/// A field read as text: the text without white space at its ends, or how a number or a truth
/// value is written; anything else is empty.
pub open spec fn plain(v: Option<Json>) -> Seq<char> {
    match v {
        Some(Json::Text(s)) => trimmed(s),
        Some(Json::Number(n)) => written(n),
        Some(Json::Bool(b)) => if b {
            "true"@
        } else {
            "false"@
        },
        _ => Seq::empty(),
    }
}

/// A field read as a number; what is no number is zero.
pub open spec fn amount(v: Option<Json>) -> u64 {
    match v {
        Some(Json::Number(n)) => bits_of(n),
        _ => 0,
    }
}

/// Whether a value counts as true.
pub open spec fn truth(v: Json) -> bool {
    match v {
        Json::Null => false,
        Json::Bool(b) => b,
        Json::Number(n) => !double::same(bits_of(n), 0),
        Json::Text(s) => s.len() > 0,
        Json::Array(_) => true,
        Json::Object(_) => true,
    }
}

/// Whether a field that may be missing counts as true; a missing one does.
pub open spec fn truth_or_missing(v: Option<Json>) -> bool {
    match v {
        Some(v) => truth(v),
        None => true,
    }
}

/// `a`, or `b` where `a` is empty.
pub open spec fn or_else(a: Seq<char>, b: Seq<char>) -> Seq<char> {
    if a.len() == 0 {
        b
    } else {
        a
    }
}

/// The value for a double; what is not finite has none.
pub open spec fn float(bits: u64) -> Json {
    if double::is_finite(bits) {
        Json::Number(Num::Float { bits, text: None })
    } else {
        Json::Null
    }
}

/// Reads a field as text. How a number with a fraction is written is known of those that were read
/// from a document; one that was computed here is not written yet, and reads as empty.
pub fn clean_text(v: Option<&Value>) -> (r: String)
    ensures
        r@ == plain(opt(v)),
{
    match v {
        Some(Value::Text(s)) => trim(s.as_str()),
        Some(Value::Number(n)) => match n {
            Number::PosInt(n) => decimal_text(*n as i128),
            Number::NegInt(n) => decimal_text(*n as i128),
            Number::Float { bits, text } => match text {
                Some(t) => trim(t.as_str()),
                None => String::new(),
            },
        },
        Some(Value::Bool(b)) => if *b {
            "true".to_owned()
        } else {
            "false".to_owned()
        },
        _ => String::new(),
    }
}

/// The double nearest to a number.
pub fn as_double(n: &Number) -> (r: u64)
    ensures
        r == bits_of(n.num()),
{
    match n {
        Number::PosInt(n) => double::from_integer(*n as i128),
        Number::NegInt(n) => double::from_integer(*n as i128),
        Number::Float { bits, text } => if double::absolute(*bits) < double::INFINITY {
            *bits
        } else {
            0
        },
    }
}

/// Reads a field as a number.
pub fn num_of(v: Option<&Value>) -> (r: u64)
    ensures
        r == amount(opt(v)),
{
    match v {
        Some(Value::Number(n)) => as_double(n),
        _ => 0,
    }
}

/// Whether a value counts as true.
pub fn truthy(v: &Value) -> (r: bool)
    ensures
        r == truth(v@),
{
    broadcast use lemma_composites;

    match v {
        Value::Null => false,
        Value::Bool(b) => *b,
        Value::Number(n) => !double::is_same(as_double(n), 0),
        Value::Text(s) => !s.as_str().is_empty(),
        Value::Array(_) => true,
        Value::Object(_) => true,
    }
}

/// Whether a field that may be missing counts as true.
pub fn truthy_or_missing(v: Option<&Value>) -> (r: bool)
    ensures
        r == truth_or_missing(opt(v)),
{
    match v {
        Some(v) => truthy(v),
        None => true,
    }
}

/// Whether a field is anything but `false`.
pub fn not_false(v: Option<&Value>) -> (r: bool)
    ensures
        r == (opt(v) != Some(Json::Bool(false))),
{
    match v {
        Some(Value::Bool(b)) => *b,
        _ => true,
    }
}

/// Whether a field is `true`.
pub fn truthy_opt(v: Option<&Value>) -> (r: bool)
    ensures
        r == (opt(v) == Some(Json::Bool(true))),
{
    match v {
        Some(Value::Bool(b)) => *b,
        _ => false,
    }
}

/// `a`, or `b` where `a` is empty.
pub fn text_or(a: String, b: &str) -> (r: String)
    ensures
        r@ == or_else(a@, b@),
{
    if a.as_str().is_empty() {
        b.to_owned()
    } else {
        a
    }
}

/// The first of the named fields that is not empty as text.
pub open spec fn first_plain(v: Json, keys: Seq<Seq<char>>) -> Seq<char>
    decreases keys.len(),
{
    if keys.len() == 0 {
        Seq::empty()
    } else {
        or_else(plain(field(v, keys[0])), first_plain(v, keys.skip(1)))
    }
}

/// The first of the named fields that is not empty as text.
pub fn first_nonempty(payload: &Value, keys: &[&str]) -> (r: String)
    ensures
        r@ == first_plain(payload@, keys@.map_values(|k: &str| k@)),
{
    let ghost names: Seq<Seq<char>> = keys@.map_values(|k: &str| k@);
    let mut i: usize = 0;
    proof {
        assert(names.skip(0) =~= names);
    }
    while i < keys.len()
        invariant
            i <= keys@.len(),
            names == keys@.map_values(|k: &str| k@),
            first_plain(payload@, names) == first_plain(payload@, names.skip(i as int)),
        decreases keys@.len() - i,
    {
        let v: String = clean_text(payload.get(keys[i]));
        proof {
            assert(names.skip(i as int).skip(1) =~= names.skip(i + 1));
            assert(names.skip(i as int)[0] == keys@[i as int]@);
        }
        if !v.as_str().is_empty() {
            return v;
        }
        i = i + 1;
    }
    String::new()
}

/// What a user is called: the display name, or the user name where it is empty.
pub open spec fn called(u: Json) -> Seq<char> {
    or_else(plain(field(u, "displayName"@)), plain(field(u, "username"@)))
}

/// What a user is called.
pub fn display_or_username(u: &Value) -> (r: String)
    ensures
        r@ == called(u@),
{
    let d: String = clean_text(u.get("displayName"));
    if !d.as_str().is_empty() {
        d
    } else {
        clean_text(u.get("username"))
    }
}

// ----- writing -----

/// The value for a double.
pub fn from_double(bits: u64) -> (r: Value)
    ensures
        r@ == float(bits),
{
    if double::absolute(bits) < double::INFINITY {
        Value::Number(Number::Float { bits, text: None })
    } else {
        Value::Null
    }
}

/// The value for a text.
pub fn from_text(s: &str) -> (r: Value)
    ensures
        r@ == Json::Text(s@),
{
    Value::Text(s.to_owned())
}

/// An object under construction that has no fields yet.
pub fn no_fields() -> (es: Vec<(String, Value)>)
    ensures
        fields(es@) == Map::<Seq<char>, Json>::empty(),
{
    let es: Vec<(String, Value)> = Vec::new();
    proof {
        assert(pairs(es@) =~= Seq::empty());
    }
    es
}

/// The object with the given entries.
pub fn from_fields(es: Vec<(String, Value)>) -> (r: Value)
    ensures
        r@ == Json::Object(fields(es@)),
{
    broadcast use lemma_composites;

    Value::Object(es)
}

/// An object with one of its fields set.
pub open spec fn set_in(v: Json, key: Seq<char>, x: Json) -> Json {
    match v {
        Json::Object(m) => Json::Object(m.insert(key, x)),
        _ => v,
    }
}

/// A value with one of its fields set; only an object has any.
pub fn with_field(v: Value, key: &str, x: Value) -> (r: Value)
    ensures
        r@ == set_in(v@, key@, x@),
{
    broadcast use lemma_composites;

    match v {
        Value::Object(es) => {
            let mut es: Vec<(String, Value)> = es;
            put_field(&mut es, key, x);
            Value::Object(es)
        },
        other => other,
    }
}

/// The array with the given elements.
pub fn from_items(vs: Vec<Value>) -> (r: Value)
    ensures
        r@ == Json::Array(jsons(vs@)),
{
    broadcast use lemma_composites;

    Value::Array(vs)
}

} // verus!
