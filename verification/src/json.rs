//! JSON values as the device configuration files hold them, and the compact
//! text that JSON values are displayed as.

use vstd::prelude::*;
use crate::error::IoError;

verus! {

/// A JSON value. A number is held as the text that it is displayed as; the
/// members of an object stand in the order in which they are displayed.
#[derive(Debug)]
pub enum JsonValue {
    Null,
    Bool(bool),
    Number(String),
    Str(String),
    Array(Vec<JsonValue>),
    Object(Vec<(String, JsonValue)>),
}

/// What became of an attempt to read a JSON file.
pub enum JsonFile {
    /// The file could not be opened.
    Unopened(IoError),
    /// The file was opened but could not be read.
    Unread(IoError),
    /// The text that was read.
    Read(String),
}

/// What a JSON file comes to: the failure to read it, the parser's message
/// for text that is not JSON, or the value it holds.
pub enum JsonFileView {
    Unopened(IoError),
    Unread(IoError),
    Invalid(Seq<char>),
    Parsed(JsonView),
}

/// What the file `f` comes to, its text taken as serde_json parses it.
pub open spec fn file_view(f: JsonFile) -> JsonFileView {
    match f {
        JsonFile::Unopened(io) => JsonFileView::Unopened(io),
        JsonFile::Unread(io) => JsonFileView::Unread(io),
        JsonFile::Read(text) => match parsed_json(text@) {
            Ok(v) => JsonFileView::Parsed(v),
            Err(m) => JsonFileView::Invalid(m),
        },
    }
}

/// A JSON value as the contracts see it, text taken as sequences of
/// characters.
pub enum JsonView {
    Null,
    Bool(bool),
    Number(Seq<char>),
    Str(Seq<char>),
    Array(Seq<JsonView>),
    Object(Seq<(Seq<char>, JsonView)>),
}

/// The view of a JSON value.
pub open spec fn json_view(v: JsonValue) -> JsonView
    decreases v,
{
    match v {
        JsonValue::Null => JsonView::Null,
        JsonValue::Bool(b) => JsonView::Bool(b),
        JsonValue::Number(n) => JsonView::Number(n@),
        JsonValue::Str(s) => JsonView::Str(s@),
        JsonValue::Array(items) => JsonView::Array(items_view(items@)),
        JsonValue::Object(entries) => JsonView::Object(members_view(entries@)),
    }
}

/// The views of the items of an array, in order.
pub open spec fn items_view(items: Seq<JsonValue>) -> Seq<JsonView>
    decreases items,
{
    if items.len() == 0 {
        Seq::empty()
    } else {
        items_view(items.drop_last()).push(json_view(items.last()))
    }
}

/// The views of the members of an object, in order.
pub open spec fn members_view(entries: Seq<(String, JsonValue)>) -> Seq<(Seq<char>, JsonView)>
    decreases entries,
{
    if entries.len() == 0 {
        Seq::empty()
    } else {
        members_view(entries.drop_last()).push((entries.last().0@, json_view(entries.last().1)))
    }
}

/// The views of an array's items, item by item.
pub proof fn lemma_items_view(items: Seq<JsonValue>)
    ensures
        items_view(items).len() == items.len(),
        forall|i: int| 0 <= i < items.len() ==> #[trigger] items_view(items)[i] == json_view(items[i]),
    decreases items.len(),
{
    if items.len() > 0 {
        lemma_items_view(items.drop_last());
    }
}

/// The views of an object's members, member by member.
pub proof fn lemma_members_view(entries: Seq<(String, JsonValue)>)
    ensures
        members_view(entries).len() == entries.len(),
        forall|i: int| 0 <= i < entries.len() ==> #[trigger] members_view(entries)[i] == (
            entries[i].0@,
            json_view(entries[i].1),
        ),
    decreases entries.len(),
{
    if entries.len() > 0 {
        lemma_members_view(entries.drop_last());
    }
}

/// The value of the first member named `key`, if there is one.
pub open spec fn member(entries: Seq<(Seq<char>, JsonView)>, key: Seq<char>) -> Option<JsonView>
    decreases entries.len(),
{
    if entries.len() == 0 {
        None
    } else if entries[0].0 == key {
        Some(entries[0].1)
    } else {
        member(entries.drop_first(), key)
    }
}

impl JsonView {
    /// The member `key` of an object; `None` for a missing member or a value
    /// that is not an object. (Indexing a JSON value by a missing key gives
    /// `null`.)
    pub open spec fn field_of(self, key: Seq<char>) -> Option<JsonView> {
        match self {
            JsonView::Object(entries) => member(entries, key),
            _ => None,
        }
    }

    /// The text of a string value.
    pub open spec fn str_of(self) -> Option<Seq<char>> {
        match self {
            JsonView::Str(s) => Some(s),
            _ => None,
        }
    }
}

impl JsonValue {
    pub fn field(&self, key: &String) -> (r: Option<&JsonValue>)
        ensures
            match r {
                Some(v) => json_view(*self).field_of(key@) == Some(json_view(*v)),
                None => json_view(*self).field_of(key@) is None,
            },
    {
        match self {
            JsonValue::Object(entries) => {
                proof {
                    lemma_members_view(entries@);
                }
                let ghost mv = members_view(entries@);
                let mut i: usize = 0;
                assert(mv.skip(0) =~= mv);
                while i < entries.len()
                    invariant
                        i <= entries.len(),
                        mv.len() == entries.len(),
                        forall|j: int| 0 <= j < entries.len() ==> #[trigger] mv[j] == (
                            entries@[j].0@,
                            json_view(entries@[j].1),
                        ),
                        json_view(*self).field_of(key@) == member(mv, key@),
                        member(mv, key@) == member(mv.skip(i as int), key@),
                    decreases entries.len() - i,
                {
                    assert(mv.skip(i as int)[0] == mv[i as int]);
                    let e = &entries[i];
                    if e.0 == *key {
                        return Some(&e.1);
                    }
                    assert(mv.skip(i as int).drop_first() =~= mv.skip(i + 1));
                    i = i + 1;
                }
                None
            },
            _ => None,
        }
    }

    pub fn as_str(&self) -> (r: Option<&String>)
        ensures
            match r {
                Some(s) => json_view(*self).str_of() == Some(s@),
                None => json_view(*self).str_of() is None,
            },
    {
        match self {
            JsonValue::Str(s) => Some(s),
            _ => None,
        }
    }
}

// ---------------------------------------------------------------------------
// Parsing and printing, by serde_json
// ---------------------------------------------------------------------------

#[verifier::external_type_specification]
#[verifier::external_body]
pub struct OutsideJsonValue(serde_json::Value);

/// What `serde_json::from_str::<serde_json::Value>` makes of `text`: the value
/// (members of an object in serde_json's order), or the text of its error.
pub uninterp spec fn parsed_json(text: Seq<char>) -> Result<JsonView, Seq<char>>;

/// The text that serde_json's `Display` (compact form) writes for a value.
pub uninterp spec fn compact_json(v: JsonView) -> Seq<char>;

/// What `serde_json::to_string_pretty` makes of a value: its pretty text, or
/// the text of its error.
pub uninterp spec fn pretty_json(v: JsonView) -> Result<Seq<char>, Seq<char>>;

/// The library's form of a value of serde_json, variant for variant, with a
/// number as the text serde_json writes for it. It is part of `parse_json`,
/// whose contract speaks of the two together; nothing is claimed of it alone.
#[verifier::external_body]
fn library_value(v: &serde_json::Value) -> JsonValue {
    match v {
        serde_json::Value::Null => JsonValue::Null,
        serde_json::Value::Bool(b) => JsonValue::Bool(*b),
        serde_json::Value::Number(n) => JsonValue::Number(n.to_string()),
        serde_json::Value::String(s) => JsonValue::Str(s.clone()),
        serde_json::Value::Array(items) => JsonValue::Array(items.iter().map(library_value).collect()),
        serde_json::Value::Object(m) => JsonValue::Object(
            m.iter().map(|(k, x)| (k.clone(), library_value(x))).collect(),
        ),
    }
}

/// serde_json's form of a library value, variant for variant; a number's
/// text is parsed as serde_json's number (text that is none stays a string).
/// It is part of `compact_text` and `pretty_text`, whose contracts speak of
/// the whole; nothing is claimed of it alone.
#[verifier::external_body]
fn outside_value(v: &JsonValue) -> serde_json::Value {
    match v {
        JsonValue::Null => serde_json::Value::Null,
        JsonValue::Bool(b) => serde_json::Value::Bool(*b),
        JsonValue::Number(t) => match t.parse::<serde_json::Number>() {
            Ok(n) => serde_json::Value::Number(n),
            Err(_) => serde_json::Value::String(t.clone()),
        },
        JsonValue::Str(s) => serde_json::Value::String(s.clone()),
        JsonValue::Array(items) => serde_json::Value::Array(items.iter().map(outside_value).collect()),
        JsonValue::Object(m) => serde_json::Value::Object(
            m.iter().map(|(k, x)| (k.clone(), outside_value(x))).collect(),
        ),
    }
}

/// Parses `text` with `serde_json::from_str` into a `serde_json::Value`,
/// converted to the library's value. Claimed: the result, or the text of
/// serde_json's error, is what `parsed_json` names for `text`.
#[verifier::external_body]
pub(crate) fn parse_json(text: &str) -> (r: Result<JsonValue, String>)
    ensures
        match r {
            Ok(v) => parsed_json(text@) == Ok::<JsonView, Seq<char>>(json_view(v)),
            Err(m) => parsed_json(text@) == Err::<JsonView, Seq<char>>(m@),
        },
{
    match serde_json::from_str::<serde_json::Value>(text) {
        Ok(v) => Ok(library_value(&v)),
        Err(e) => Err(e.to_string()),
    }
}

/// The compact text of `v`, as serde_json's `Display` writes the value.
/// Claimed: the text is what `compact_json` names for the view of `v`.
#[verifier::external_body]
pub(crate) fn compact_text(v: &JsonValue) -> (s: String)
    ensures
        s@ == compact_json(json_view(*v)),
{
    outside_value(v).to_string()
}

/// The pretty text of `v`, by `serde_json::to_string_pretty` on the
/// `serde_json::Value` for `v`. Claimed: it is what `pretty_json` names for
/// the view of `v`, and it is never an error: serde_json documents that
/// serialization fails only where a `Serialize` impl fails or a map has keys
/// that are not strings, and neither can happen for a `Value`.
#[verifier::external_body]
pub(crate) fn pretty_text(v: &JsonValue) -> (r: Result<String, String>)
    ensures
        r is Ok,
        match r {
            Ok(s) => pretty_json(json_view(*v)) == Ok::<Seq<char>, Seq<char>>(s@),
            Err(m) => pretty_json(json_view(*v)) == Err::<Seq<char>, Seq<char>>(m@),
        },
{
    serde_json::to_string_pretty(&outside_value(v)).map_err(|e| e.to_string())
}

} // verus!
