//! JSON as the library reads and writes it. `serde_json` does the parsing and the printing.
use vstd::prelude::*;
use vstd::string::*;

use crate::text::{opt_text, same, texts};

verus! {

/// A JSON value. A number that is no `i64` keeps its digits as text.
pub enum Json {
    Null,
    Bool(bool),
    Int(i64),
    Real(String),
    Str(String),
    Array(Vec<Json>),
    Object(Vec<Member>),
}

/// One member of a JSON object.
pub struct Member {
    pub key: String,
    pub value: Json,
}

/// What one member of a JSON object says.
pub struct MemberModel {
    pub key: Seq<char>,
    pub value: JsonModel,
}

/// What a JSON value says.
pub enum JsonModel {
    Null,
    Bool(bool),
    Int(int),
    Real(Seq<char>),
    Str(Seq<char>),
    Array(Seq<JsonModel>),
    Object(Seq<MemberModel>),
}

/// `serde_json::Value`, which is only carried between the calls into `serde_json`.
#[verifier::external_type_specification]
#[verifier::external_body]
pub struct ExValue(serde_json::Value);

/// The strings of a text that is a JSON array of strings, as `serde_json::from_str` reads it.
pub uninterp spec fn json_strings(text: Seq<char>) -> Option<Seq<Seq<char>>>;

/// The text that `serde_json::to_string` makes of a list of strings.
pub uninterp spec fn json_array_text(list: Seq<Seq<char>>) -> Seq<char>;

/// The value of a JSON text as `serde_json::from_str` reads it, or the text of its error.
pub uninterp spec fn json_value(text: Seq<char>) -> Result<JsonModel, Seq<char>>;

/// The text that `serde_json::to_string` makes of a value.
pub uninterp spec fn json_compact_text(value: JsonModel) -> Seq<char>;

/// The text that `serde_json::to_string_pretty` makes of a value.
pub uninterp spec fn json_pretty_text(value: JsonModel) -> Seq<char>;

/// `serde_json::from_str` at `Vec<String>`: the strings of a JSON array of strings, or nothing
/// where the text is no such array. Which texts those are is left to `serde_json`.
#[verifier::external_body]
pub(crate) fn parse_strings(text: &str) -> (r: Option<Vec<String>>)
    ensures
        match r {
            Some(v) => json_strings(text@) == Some(texts(v@)),
            None => json_strings(text@) is None,
        },
{
    serde_json::from_str::<Vec<String>>(text).ok()
}

/// `serde_json::to_string` at a list of strings. What it prints is named, and it is said that
/// reading it gives the list back.
#[verifier::external_body]
pub(crate) fn print_strings(list: &Vec<String>) -> (r: String)
    ensures
        r@ == json_array_text(texts(list@)),
        json_strings(r@) == Some(texts(list@)),
{
    serde_json::to_string(list).unwrap()
}

/// Hands a `serde_json::Value` over, variant by variant.
#[verifier::external_body]
fn from_value(v: serde_json::Value) -> (r: Json) {
    match v {
        serde_json::Value::Null => Json::Null,
        serde_json::Value::Bool(b) => Json::Bool(b),
        serde_json::Value::Number(n) => match n.as_i64() {
            Some(i) => Json::Int(i),
            None => Json::Real(n.to_string()),
        },
        serde_json::Value::String(s) => Json::Str(s),
        serde_json::Value::Array(v) => Json::Array(v.into_iter().map(from_value).collect()),
        serde_json::Value::Object(m) => Json::Object(
            m.into_iter().map(|(k, x)| Member { key: k, value: from_value(x) }).collect(),
        ),
    }
}

/// Hands a value to `serde_json`, variant by variant.
#[verifier::external_body]
fn to_value(v: &Json) -> (r: serde_json::Value) {
    match v {
        Json::Null => serde_json::Value::Null,
        Json::Bool(b) => serde_json::Value::Bool(*b),
        Json::Int(i) => serde_json::Value::from(*i),
        Json::Real(t) => t.parse().map(serde_json::Value::Number).unwrap_or_default(),
        Json::Str(s) => serde_json::Value::String(s.clone()),
        Json::Array(v) => serde_json::Value::Array(v.iter().map(to_value).collect()),
        Json::Object(m) => serde_json::Value::Object(
            m.iter().map(|x| (x.key.clone(), to_value(&x.value))).collect(),
        ),
    }
}

/// `serde_json::from_str` at `serde_json::Value`: the value of a JSON text, or the text of the
/// error where the text is no JSON. Which texts those are is left to `serde_json`.
#[verifier::external_body]
pub(crate) fn parse_json(text: &str) -> (r: Result<Json, String>)
    ensures
        match r {
            Ok(v) => json_value(text@) == Ok::<JsonModel, Seq<char>>(v@),
            Err(e) => json_value(text@) == Err::<JsonModel, Seq<char>>(e@),
        },
{
    serde_json::from_str::<serde_json::Value>(text).map(from_value).map_err(|e| e.to_string())
}

/// `serde_json::to_string` at a value: JSON without white space. Its layout is left to
/// `serde_json`.
#[verifier::external_body]
pub(crate) fn print_compact(v: &Json) -> (r: String)
    ensures
        r@ == json_compact_text(v@),
{
    serde_json::to_string(&to_value(v)).unwrap_or_default()
}

/// `serde_json::to_string_pretty`: a value as indented JSON. Its layout is left to `serde_json`.
#[verifier::external_body]
pub(crate) fn print_pretty(v: &Json) -> (r: String)
    ensures
        r@ == json_pretty_text(v@),
{
    serde_json::to_string_pretty(&to_value(v)).unwrap_or_else(|_| "[]".to_string())
}

impl View for Json {
    type V = JsonModel;

    open spec fn view(&self) -> JsonModel
        decreases self,
    {
        match self {
            Json::Null => JsonModel::Null,
            Json::Bool(b) => JsonModel::Bool(*b),
            Json::Int(i) => JsonModel::Int(*i as int),
            Json::Real(t) => JsonModel::Real(t@),
            Json::Str(s) => JsonModel::Str(s@),
            Json::Array(v) => JsonModel::Array(
                Seq::new(
                    v@.len(),
                    |i: int|
                        if 0 <= i < v@.len() {
                            v@[i].view()
                        } else {
                            JsonModel::Null
                        },
                ),
            ),
            Json::Object(m) => JsonModel::Object(
                Seq::new(
                    m@.len(),
                    |i: int|
                        if 0 <= i < m@.len() {
                            MemberModel { key: m@[i].key@, value: m@[i].value.view() }
                        } else {
                            MemberModel { key: Seq::empty(), value: JsonModel::Null }
                        },
                ),
            ),
        }
    }
}

/// The values behind a list of JSON values.
pub open spec fn json_items(v: Seq<Json>) -> Seq<JsonModel> {
    Seq::new(v.len(), |i: int| v[i]@)
}

/// The members behind a list of keys and JSON values.
pub open spec fn json_members(m: Seq<Member>) -> Seq<MemberModel> {
    Seq::new(m.len(), |i: int| MemberModel { key: m[i].key@, value: m[i].value@ })
}

/// The first member from `i` on with the given key.
pub open spec fn member_from(m: Seq<MemberModel>, key: Seq<char>, i: int) -> Option<JsonModel>
    decreases m.len() - i,
{
    if i < 0 || i >= m.len() {
        None
    } else if m[i].key == key {
        Some(m[i].value)
    } else {
        member_from(m, key, i + 1)
    }
}

/// What stands under a key of what may be an object.
pub open spec fn under(v: Option<JsonModel>, key: Seq<char>) -> Option<JsonModel> {
    match v {
        Some(j) => j.get(key),
        None => None,
    }
}

/// What stands first in what may be an array.
pub open spec fn first_of(v: Option<JsonModel>) -> Option<JsonModel> {
    match v {
        Some(j) => match j.items() {
            Some(items) => if items.len() > 0 {
                Some(items[0])
            } else {
                None
            },
            None => None,
        },
        None => None,
    }
}

/// The text of what may be a string.
pub open spec fn text_of(v: Option<JsonModel>) -> Option<Seq<char>> {
    match v {
        Some(j) => j.text(),
        None => None,
    }
}

/// The number of what may be one.
pub open spec fn number_of(v: Option<JsonModel>) -> Option<int> {
    match v {
        Some(j) => j.number(),
        None => None,
    }
}

/// What an optional value says.
pub open spec fn opt_json(v: Option<&Json>) -> Option<JsonModel> {
    match v {
        Some(j) => Some(j@),
        None => None,
    }
}

/// What stands under a key of what may be an object.
pub fn at_key<'a>(v: Option<&'a Json>, key: &str) -> (r: Option<&'a Json>)
    ensures
        opt_json(r) == under(opt_json(v), key@),
{
    match v {
        Some(j) => j.get(key),
        None => None,
    }
}

/// What stands first in what may be an array.
pub fn at_first<'a>(v: Option<&'a Json>) -> (r: Option<&'a Json>)
    ensures
        opt_json(r) == first_of(opt_json(v)),
{
    match v {
        Some(j) => match j.as_array() {
            Some(items) => if items.len() > 0 {
                assert(json_items(items@)[0] == items@[0]@);
                Some(&items[0])
            } else {
                None
            },
            None => None,
        },
        None => None,
    }
}

/// The text of what may be a string.
pub fn text_at(v: Option<&Json>) -> (r: Option<String>)
    ensures
        opt_text(r) == text_of(opt_json(v)),
{
    match v {
        Some(j) => match j.as_str() {
            Some(s) => Some(s.to_owned()),
            None => None,
        },
        None => None,
    }
}

/// The number of what may be one.
pub fn number_at(v: Option<&Json>) -> (r: Option<i64>)
    ensures
        match r {
            Some(n) => number_of(opt_json(v)) == Some(n as int),
            None => number_of(opt_json(v)) is None,
        },
{
    match v {
        Some(j) => j.as_i64(),
        None => None,
    }
}

impl JsonModel {
    /// The member of an object with the given key.
    pub open spec fn get(self, key: Seq<char>) -> Option<JsonModel> {
        match self {
            JsonModel::Object(m) => member_from(m, key, 0),
            _ => None,
        }
    }

    /// The text of a string.
    pub open spec fn text(self) -> Option<Seq<char>> {
        match self {
            JsonModel::Str(s) => Some(s),
            _ => None,
        }
    }

    /// The number, where it is an `i64`.
    pub open spec fn number(self) -> Option<int> {
        match self {
            JsonModel::Int(i) => Some(i),
            _ => None,
        }
    }

    /// The items of an array.
    pub open spec fn items(self) -> Option<Seq<JsonModel>> {
        match self {
            JsonModel::Array(v) => Some(v),
            _ => None,
        }
    }
}

/// An object with the given members.
pub fn json_object(m: Vec<Member>) -> (r: Json)
    ensures
        r@ == JsonModel::Object(json_members(m@)),
{
    let ghost members = json_members(m@);
    let r = Json::Object(m);
    assert(r@->Object_0 =~= members);
    r
}

/// An array of the given items.
pub fn json_array(v: Vec<Json>) -> (r: Json)
    ensures
        r@ == JsonModel::Array(json_items(v@)),
{
    let ghost items = json_items(v@);
    let r = Json::Array(v);
    assert(r@->Array_0 =~= items);
    r
}

/// A string.
pub fn json_text(s: &str) -> (r: Json)
    ensures
        r@ == JsonModel::Str(s@),
{
    Json::Str(s.to_owned())
}

/// Adds a member at the end.
pub fn add_member(m: &mut Vec<Member>, key: &str, value: Json)
    ensures
        json_members(final(m)@) == json_members(old(m)@).push(MemberModel { key: key@, value: value@ }),
{
    let ghost before = m@;
    let ghost v = value@;
    m.push(Member { key: key.to_owned(), value });
    assert(json_members(m@) =~= json_members(before).push(MemberModel { key: key@, value: v }));
}

impl Json {
    /// The member of an object with the given key.
    pub fn get(&self, key: &str) -> (r: Option<&Json>)
        ensures
            match r {
                Some(v) => self@.get(key@) == Some(v@),
                None => self@.get(key@) is None,
            },
    {
        match self {
            Json::Object(m) => {
                let ghost all = json_members(m@);
                assert(self@->Object_0 =~= all);
                let mut i: usize = 0;
                while i < m.len()
                    invariant
                        i <= m.len(),
                        all == json_members(m@),
                        self@.get(key@) == member_from(all, key@, 0),
                        member_from(all, key@, 0) == member_from(all, key@, i as int),
                    decreases m.len() - i,
                {
                    if same(m[i].key.as_str(), key) {
                        return Some(&m[i].value);
                    }
                    i += 1;
                }
                None
            },
            _ => None,
        }
    }

    /// The text of a string.
    pub fn as_str(&self) -> (r: Option<&str>)
        ensures
            match r {
                Some(v) => self@.text() == Some(v@),
                None => self@.text() is None,
            },
    {
        match self {
            Json::Str(s) => Some(s.as_str()),
            _ => None,
        }
    }

    /// The number, where it is an `i64`.
    pub fn as_i64(&self) -> (r: Option<i64>)
        ensures
            match r {
                Some(v) => self@.number() == Some(v as int),
                None => self@.number() is None,
            },
    {
        match self {
            Json::Int(i) => Some(*i),
            _ => None,
        }
    }

    /// The items of an array.
    pub fn as_array(&self) -> (r: Option<&Vec<Json>>)
        ensures
            match r {
                Some(v) => self@.items() == Some(json_items(v@)),
                None => self@.items() is None,
            },
    {
        match self {
            Json::Array(v) => {
                assert(self@->Array_0 =~= json_items(v@));
                Some(v)
            },
            _ => None,
        }
    }
}

} // verus!
