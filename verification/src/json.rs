//! JSON documents as plain values, and the lookups the upstream answers are
//! read with. Parsing itself is serde_json's; the document it yields is
//! carried over one variant at a time.
use vstd::prelude::*;
use serde_json::Value;
use crate::text::{parse_i64, parse_unsigned, parsed_i64, parsed_unsigned, push_str, str_eq, string_of};

verus! {

/// A JSON value. Numbers keep the text serde_json writes for them; object
/// members keep serde_json's order, with each key once.
#[derive(Debug)]
pub enum Json {
    Null,
    Bool(bool),
    Number(String),
    Str(String),
    Array(Vec<Json>),
    Object(Vec<(String, Json)>),
}

/// The document serde_json reads from `text`, or `None` where the text is no
/// JSON.
pub uninterp spec fn json_parse_of(text: Seq<char>) -> Option<Json>;

/// Carry a serde_json value over into a `Json`, variant for variant.
#[verifier::external_body]
fn json_from_value(v: &Value) -> Json {
    match v {
        Value::Null => Json::Null,
        Value::Bool(b) => Json::Bool(*b),
        Value::Number(n) => Json::Number(n.to_string()),
        Value::String(s) => Json::Str(s.clone()),
        Value::Array(a) => Json::Array(a.iter().map(json_from_value).collect()),
        Value::Object(o) => Json::Object(o.iter().map(|(k, x)| (k.clone(), json_from_value(x))).collect()),
    }
}

/// `serde_json::from_str::<Value>`: the document in `text`; where
/// serde_json rejects the text, the text of its error (`Display`), which is
/// not described. The document is named, not described.
#[verifier::external_body]
pub(crate) fn parse_json(text: &str) -> (r: Result<Json, String>)
    ensures
        match r {
            Ok(j) => json_parse_of(text@) == Some(j),
            Err(_) => json_parse_of(text@) is None,
        },
{
    match serde_json::from_str::<Value>(text) {
        Ok(v) => Ok(json_from_value(&v)),
        Err(e) => Err(e.to_string()),
    }
}

/// Carry a `Json` over into a serde_json value, variant for variant.
#[verifier::external_body]
fn value_from_json(j: &Json) -> Value {
    match j {
        Json::Null => Value::Null,
        Json::Bool(b) => Value::Bool(*b),
        Json::Number(t) => serde_json::from_str(t).unwrap_or(Value::Null),
        Json::Str(s) => Value::String(s.clone()),
        Json::Array(a) => Value::Array(a.iter().map(value_from_json).collect()),
        Json::Object(o) => Value::Object(o.iter().map(|(k, x)| (k.clone(), value_from_json(x))).collect()),
    }
}

/// What serde_json writes for a document (`Display` of `Value`: compact
/// JSON).
pub uninterp spec fn json_text_of(j: Json) -> Seq<char>;

/// `Value::to_string`: the document written as compact JSON. The text is
/// named, not described.
#[verifier::external_body]
pub(crate) fn json_text(j: &Json) -> (r: String)
    ensures
        r@ == json_text_of(*j),
{
    value_from_json(j).to_string()
}

/// The document in `text`, `None` where it is no JSON.
pub fn read_json(text: &str) -> (r: Option<Json>)
    ensures
        r == json_parse_of(text@),
{
    match parse_json(text) {
        Ok(j) => Some(j),
        Err(_) => None,
    }
}

/// The member named `key` among `fields`.
pub open spec fn field_of(fields: Seq<(String, Json)>, key: Seq<char>) -> Option<Json>
    decreases fields.len(),
{
    if fields.len() == 0 {
        None
    } else if fields[0].0@ == key {
        Some(fields[0].1)
    } else {
        field_of(fields.drop_first(), key)
    }
}

/// `Value::get(key)`: the member `key` of an object; nothing for any other
/// value.
pub open spec fn get_of(v: Option<Json>, key: Seq<char>) -> Option<Json> {
    match v {
        Some(Json::Object(fields)) => field_of(fields@, key),
        _ => None,
    }
}

/// `Value::as_str`.
pub open spec fn str_of(v: Option<Json>) -> Option<Seq<char>> {
    match v {
        Some(Json::Str(s)) => Some(s@),
        _ => None,
    }
}

/// `Value::as_u64`: a number written as plain digits that fits `u64`.
pub open spec fn u64_of(v: Option<Json>) -> Option<u64> {
    match v {
        Some(Json::Number(t)) => match parsed_unsigned(t@, u64::MAX as nat) {
            Some(n) => Some(n as u64),
            None => None,
        },
        _ => None,
    }
}

/// `Value::as_i64`: a number written as plain digits, after a `-` for a
/// negative one, whose value fits `i64`.
pub open spec fn i64_of(v: Option<Json>) -> Option<i64> {
    match v {
        Some(Json::Number(t)) => parsed_i64(t@),
        _ => None,
    }
}

/// `Value::as_bool`.
pub open spec fn bool_of(v: Option<Json>) -> Option<bool> {
    match v {
        Some(Json::Bool(b)) => Some(b),
        _ => None,
    }
}

/// The value of `v`, where it is a whole number that fits `i64`.
pub fn as_i64(v: Option<&Json>) -> (r: Option<i64>)
    ensures
        r == i64_of(deref(v)),
{
    match v {
        Some(Json::Number(t)) => parse_i64(t.as_str()),
        _ => None,
    }
}

/// The value of `v`, where it is `true` or `false`.
pub fn as_bool(v: Option<&Json>) -> (r: Option<bool>)
    ensures
        r == bool_of(deref(v)),
{
    match v {
        Some(Json::Bool(b)) => Some(*b),
        _ => None,
    }
}

/// `Value::as_array`.
pub open spec fn array_of(v: Option<Json>) -> Option<Seq<Json>> {
    match v {
        Some(Json::Array(a)) => Some(a@),
        _ => None,
    }
}

/// `Value::is_null`.
pub open spec fn is_null_of(v: Option<Json>) -> bool {
    v matches Some(Json::Null)
}

/// `Value::is_object`.
pub open spec fn is_object_of(v: Option<Json>) -> bool {
    v matches Some(Json::Object(_))
}

/// An optional borrowed value as the value itself.
pub open spec fn deref(v: Option<&Json>) -> Option<Json> {
    match v {
        Some(x) => Some(*x),
        None => None,
    }
}

/// The member `key` of `v`, where `v` is an object that has one.
pub fn get<'a>(v: Option<&'a Json>, key: &str) -> (r: Option<&'a Json>)
    ensures
        deref(r) == get_of(deref(v), key@),
{
    match v {
        Some(Json::Object(fields)) => {
            let mut i: usize = 0;
            proof {
                assert(fields@.skip(0) =~= fields@);
            }
            while i < fields.len()
                invariant
                    0 <= i <= fields@.len(),
                    get_of(deref(v), key@) == field_of(fields@, key@),
                    field_of(fields@, key@) == field_of(fields@.skip(i as int), key@),
                decreases fields@.len() - i,
            {
                proof {
                    assert(fields@.skip(i as int).drop_first() =~= fields@.skip(i + 1));
                }
                if str_eq(fields[i].0.as_str(), key) {
                    proof {
                        assert(fields@.skip(i as int)[0] == fields@[i as int]);
                        assert(fields@[i as int].0@ == key@);
                        assert(field_of(fields@.skip(i as int), key@) == Some(fields@[i as int].1));

                    }
                    return Some(&fields[i].1);
                }
                i = i + 1;
            }
            None
        },
        _ => None,
    }
}

/// The text of `v`, where it is a string.
pub fn as_str<'a>(v: Option<&'a Json>) -> (r: Option<&'a str>)
    ensures
        match r {
            Some(s) => str_of(deref(v)) == Some(s@),
            None => str_of(deref(v)) is None,
        },
{
    match v {
        Some(Json::Str(s)) => Some(s.as_str()),
        _ => None,
    }
}

/// The value of `v`, where it is a number that fits `u64`.
pub fn as_u64(v: Option<&Json>) -> (r: Option<u64>)
    ensures
        r == u64_of(deref(v)),
{
    match v {
        Some(Json::Number(t)) => parse_unsigned(t.as_str(), u64::MAX),
        _ => None,
    }
}

/// The elements of `v`, where it is an array.
pub fn as_array<'a>(v: Option<&'a Json>) -> (r: Option<&'a Vec<Json>>)
    ensures
        match r {
            Some(a) => array_of(deref(v)) == Some(a@),
            None => array_of(deref(v)) is None,
        },
{
    match v {
        Some(Json::Array(a)) => Some(a),
        _ => None,
    }
}

/// Whether `v` is JSON `null`.
pub fn is_null(v: Option<&Json>) -> (r: bool)
    ensures
        r == is_null_of(deref(v)),
{
    match v {
        Some(Json::Null) => true,
        _ => false,
    }
}

/// Whether `v` is an object.
pub fn is_object(v: Option<&Json>) -> (r: bool)
    ensures
        r == is_object_of(deref(v)),
{
    match v {
        Some(Json::Object(_)) => true,
        _ => false,
    }
}

/// The text of member `key` of `v`, empty where it is no text.
pub open spec fn member_text(v: Json, key: Seq<char>) -> Seq<char> {
    match str_of(get_of(Some(v), key)) {
        Some(t) => t,
        None => Seq::empty(),
    }
}

/// The text of member `key` of `v`, where it is a non-empty text.
pub open spec fn member_opt_text(v: Json, key: Seq<char>) -> Option<Seq<char>> {
    match str_of(get_of(Some(v), key)) {
        Some(t) => if t.len() > 0 { Some(t) } else { None },
        None => None,
    }
}

/// The text of the first of `keys` whose member in `v` is a text.
pub open spec fn first_text(v: Json, keys: Seq<&str>) -> Option<Seq<char>>
    decreases keys.len(),
{
    if keys.len() == 0 {
        None
    } else {
        match str_of(get_of(Some(v), keys[0]@)) {
            Some(t) => Some(t),
            None => first_text(v, keys.drop_first()),
        }
    }
}

/// A whole number held as a JSON number or as a text that parses as `i64`.
pub open spec fn loose_i64_of(m: Option<Json>) -> Option<i64> {
    match m {
        Some(Json::Number(t)) => parsed_i64(t@),
        Some(Json::Str(t)) => parsed_i64(t@),
        _ => None,
    }
}

/// The whole number of the first of `keys` whose member in `v` holds one.
pub open spec fn first_i64(v: Json, keys: Seq<&str>) -> Option<i64>
    decreases keys.len(),
{
    if keys.len() == 0 {
        None
    } else {
        match loose_i64_of(get_of(Some(v), keys[0]@)) {
            Some(n) => Some(n),
            None => first_i64(v, keys.drop_first()),
        }
    }
}

/// Lenient field reads on an upstream document.
pub trait ValueExt {
    /// The text of member `key`, empty where it is no text.
    fn str_field(&self, key: &str) -> String;

    /// The text of member `key`, where it is a non-empty text.
    fn opt_str(&self, key: &str) -> Option<String>;

    /// The text of the first of `keys` that names a text member, else empty.
    fn str_one_of(&self, keys: &[&str]) -> String;

    /// The whole number of the first of `keys` that names a member holding
    /// one, as a JSON number or as a text.
    fn i64_one_of(&self, keys: &[&str]) -> Option<i64>;
}

impl ValueExt for Json {
    fn str_field(&self, key: &str) -> (r: String)
        ensures
            r@ == member_text(*self, key@),
    {
        match as_str(get(Some(self), key)) {
            Some(t) => t.to_string(),
            None => String::new(),
        }
    }

    fn opt_str(&self, key: &str) -> (r: Option<String>)
        ensures
            match r {
                Some(t) => member_opt_text(*self, key@) == Some(t@),
                None => member_opt_text(*self, key@) is None,
            },
    {
        match as_str(get(Some(self), key)) {
            Some(t) => if t.is_empty() { None } else { Some(t.to_string()) },
            None => None,
        }
    }

    fn str_one_of(&self, keys: &[&str]) -> (r: String)
        ensures
            r@ == match first_text(*self, keys@) {
                Some(t) => t,
                None => Seq::empty(),
            },
    {
        let mut i: usize = 0;
        proof {
            assert(keys@.skip(0) =~= keys@);
        }
        while i < keys.len()
            invariant
                0 <= i <= keys@.len(),
                first_text(*self, keys@) == first_text(*self, keys@.skip(i as int)),
            decreases keys@.len() - i,
        {
            proof {
                assert(keys@.skip(i as int).drop_first() =~= keys@.skip(i + 1));
                assert(keys@.skip(i as int)[0] == keys@[i as int]);
            }
            match as_str(get(Some(self), keys[i])) {
                Some(t) => return t.to_string(),
                None => {},
            }
            i = i + 1;
        }
        String::new()
    }

    fn i64_one_of(&self, keys: &[&str]) -> (r: Option<i64>)
        ensures
            r == first_i64(*self, keys@),
    {
        let mut i: usize = 0;
        proof {
            assert(keys@.skip(0) =~= keys@);
        }
        while i < keys.len()
            invariant
                0 <= i <= keys@.len(),
                first_i64(*self, keys@) == first_i64(*self, keys@.skip(i as int)),
            decreases keys@.len() - i,
        {
            proof {
                assert(keys@.skip(i as int).drop_first() =~= keys@.skip(i + 1));
                assert(keys@.skip(i as int)[0] == keys@[i as int]);
            }
            let n = match get(Some(self), keys[i]) {
                Some(Json::Number(t)) => parse_i64(t.as_str()),
                Some(Json::Str(t)) => parse_i64(t.as_str()),
                _ => None,
            };
            if n.is_some() {
                return n;
            }
            i = i + 1;
        }
        None
    }
}

/// The text of member `key` of `v`, empty where it is no text.
pub fn str_field(v: &Json, key: &str) -> (r: String)
    ensures
        r@ == member_text(*v, key@),
{
    v.str_field(key)
}

/// Whether a train entry runs on `day` (`Mon` .. `Sun`): its `runOn{day}`
/// or its `runsOn{day}` member is `true`.
pub fn day_bool(entry: &Json, day: &str) -> (r: bool)
    ensures
        r == (bool_of(get_of(Some(*entry), "runOn"@ + day@)) == Some(true)
            || bool_of(get_of(Some(*entry), "runsOn"@ + day@)) == Some(true)),
{
    let mut a: Vec<char> = Vec::new();
    push_str(&mut a, "runOn");
    push_str(&mut a, day);
    let ka = string_of(a.as_slice());
    let mut b: Vec<char> = Vec::new();
    push_str(&mut b, "runsOn");
    push_str(&mut b, day);
    let kb = string_of(b.as_slice());
    as_bool(get(Some(entry), ka.as_str())) == Some(true) || as_bool(get(Some(entry), kb.as_str())) == Some(true)
}

} // verus!
