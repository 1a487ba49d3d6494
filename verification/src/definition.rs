//! The JSON form in which a device's definition is stored, and reading a
//! definition back into a device.

use vstd::prelude::*;
use crate::device_uuid::{hyphenated, hyphenated_text};
use crate::environment::Environment;
use crate::error::{Error, ErrorView};
use crate::json::{
    JsonFile, JsonFileView, JsonValue, JsonView, member, compact_json, compact_text, file_view, items_view,
    json_view, lemma_items_view, lemma_members_view, members_view, parse_json, parsed_json, pretty_json,
    pretty_text,
};
use crate::device_uuid::Uuid;
use crate::mdev::{
    MDev, MDevView, attr_text, attrs_text, fresh_view, no_parent_error, no_type_error, persistent_path_of,
};
use crate::text::{path_debug, path_debug_text, str_debug, str_debug_text};

verus! {

/// The message for a value of "attrs" that is neither an array nor null.
pub open spec fn not_array_message() -> Seq<char> {
    "attributes field is not an array"@
}

/// The message for an attribute whose value is not a string.
pub open spec fn non_str_attr_message(key: Seq<char>, v: JsonView) -> Seq<char> {
    "invalid JSON format for attribute {"@ + str_debug_text(key) + ", "@ + compact_json(v)
        + "}: value must be of type str"@
}

/// An attribute is an object with exactly one member, whose value is a
/// string; anything else is refused with the message given.
pub open spec fn attr_item(item: JsonView) -> Result<(Seq<char>, Seq<char>), Seq<char>> {
    match item {
        JsonView::Object(entries) => if entries.len() != 1 {
            Err("invalid JSON format for attribute: too many fields"@)
        } else {
            match entries[0].1 {
                JsonView::Str(s) => Ok((entries[0].0, s)),
                v => Err(non_str_attr_message(entries[0].0, v)),
            }
        },
        _ => Err("invalid JSON format for attribute: not an object"@),
    }
}

/// The attributes read from `items` in order, up to the first item that is
/// not one, and that item's message.
pub open spec fn attrs_from_items(items: Seq<JsonView>) -> (Seq<(Seq<char>, Seq<char>)>, Option<Seq<char>>)
    decreases items.len(),
{
    if items.len() == 0 {
        (Seq::empty(), None)
    } else {
        let prev = attrs_from_items(items.drop_last());
        if prev.1 is Some {
            prev
        } else {
            match attr_item(items.last()) {
                Ok(a) => (prev.0.push(a), None),
                Err(m) => (prev.0, Some(m)),
            }
        }
    }
}

/// A device after it takes the "attrs" member of a definition, and the
/// message of the error where there is one. Null adds nothing; an array adds
/// its attributes up to the first bad item.
pub open spec fn with_attributes(d: MDevView, attrs: JsonView) -> (MDevView, Option<Seq<char>>) {
    match attrs {
        JsonView::Null => (d, None),
        JsonView::Array(items) => {
            let got = attrs_from_items(items);
            (MDevView { attrs: d.attrs + got.0, ..d }, got.1)
        },
        _ => (d, Some(not_array_message())),
    }
}

/// A device after it reads a definition for `parent`: the parent is taken
/// first; then "mdev_type" and "start" must be strings (else the message
/// says which is missing); "start" is "auto" or not; last come the
/// attributes (a missing "attrs" counts as null).
pub open spec fn loaded_from_json(d: MDevView, parent: Seq<char>, json: JsonView) -> (MDevView, Option<Seq<char>>) {
    let d1 = MDevView { parent: Some(parent), ..d };
    match json.field_of("mdev_type"@) {
        Some(JsonView::Str(t)) => {
            let d2 = MDevView { mdev_type: Some(t), ..d1 };
            match json.field_of("start"@) {
                Some(JsonView::Str(st)) => {
                    let d3 = MDevView { autostart: st == "auto"@, ..d2 };
                    match json.field_of("attrs"@) {
                        Some(a) => with_attributes(d3, a),
                        None => with_attributes(d3, JsonView::Null),
                    }
                },
                _ => (d2, Some("JSON must specify 'start' field"@)),
            }
        },
        _ => (d1, Some("JSON must specify 'mdev_type' field"@)),
    }
}

/// `r` reports the outcome `e`: success, or a format error with that message.
pub open spec fn format_outcome(r: Result<(), Error>, e: Option<Seq<char>>) -> bool {
    match e {
        None => r is Ok,
        Some(m) => r matches Err(Error::DeviceFormat(x)) && x@ == m,
    }
}

/// How the start mode is written.
pub open spec fn start_text(autostart: bool) -> Seq<char> {
    if autostart {
        "auto"@
    } else {
        "manual"@
    }
}

/// Each attribute as an object with one member.
pub open spec fn attrs_json(a: Seq<(Seq<char>, Seq<char>)>) -> Seq<JsonView> {
    Seq::new(a.len(), |i: int| JsonView::Object(seq![(a[i].0, JsonView::Str(a[i].1))]))
}

/// The stored definition of a device of type `t`: its attributes, type and
/// start mode (members in the order in which they are displayed).
pub open spec fn definition_json(d: MDevView, t: Seq<char>) -> JsonView {
    JsonView::Object(
        seq![
            ("attrs"@, JsonView::Array(attrs_json(d.attrs))),
            ("mdev_type"@, JsonView::Str(t)),
            ("start"@, JsonView::Str(start_text(d.autostart))),
        ],
    )
}

proof fn lemma_attrs_error_sticks(items: Seq<JsonView>, k: int, n: int)
    requires
        0 <= k <= n <= items.len(),
        attrs_from_items(items.take(k)).1 is Some,
    ensures
        attrs_from_items(items.take(n)) == attrs_from_items(items.take(k)),
    decreases n - k,
{
    if n > k {
        lemma_attrs_error_sticks(items, k, n - 1);
        assert(items.take(n).drop_last() =~= items.take(n - 1));
    }
}

/// The JSON of a one-member object holding an attribute.
fn attr_object(a: &(String, String)) -> (j: JsonValue)
    ensures
        json_view(j) == JsonView::Object(seq![(a.0@, JsonView::Str(a.1@))]),
{
    let mut members: Vec<(String, JsonValue)> = Vec::new();
    members.push((a.0.clone(), JsonValue::Str(a.1.clone())));
    let j = JsonValue::Object(members);
    proof {
        lemma_members_view(members@);
        assert(members_view(members@) =~= seq![(a.0@, JsonView::Str(a.1@))]);
    }
    j
}

impl<'e> MDev<'e> {
    /// Adds the attributes given in a definition's "attrs" member.
    pub fn add_attributes(&mut self, attrs: &JsonValue) -> (r: Result<(), Error>)
        ensures
            final(self).env == old(self).env,
            final(self)@ == with_attributes(old(self)@, json_view(*attrs)).0,
            format_outcome(r, with_attributes(old(self)@, json_view(*attrs)).1),
    {
        match attrs {
            JsonValue::Null => Ok(()),
            JsonValue::Array(items) => {
                proof {
                    lemma_items_view(items@);
                }
                let ghost iv = items_view(items@);
                let ghost start = self@;
                let mut i: usize = 0;
                assert(iv.take(0) =~= Seq::<JsonView>::empty());
                assert(start.attrs + Seq::<(Seq<char>, Seq<char>)>::empty() =~= start.attrs);
                while i < items.len()
                    invariant
                        i <= items.len(),
                        iv.len() == items.len(),
                        forall|j: int| 0 <= j < items.len() ==> #[trigger] iv[j] == json_view(items@[j]),
                        iv == items_view(items@),
                        json_view(*attrs) == JsonView::Array(iv),
                        start == old(self)@,
                        self.env == old(self).env,
                        attrs_from_items(iv.take(i as int)).1 is None,
                        self@ == (MDevView {
                            attrs: start.attrs + attrs_from_items(iv.take(i as int)).0,
                            ..start
                        }),
                    decreases items.len() - i,
                {
                    assert(iv.take(i + 1).drop_last() =~= iv.take(i as int));
                    assert(iv.take(i + 1).last() == iv[i as int]);
                    let item = &items[i];
                    match item {
                        JsonValue::Object(entries) => {
                            proof {
                                lemma_members_view(entries@);
                            }
                            if entries.len() != 1 {
                                proof {
                                    lemma_attrs_error_sticks(iv, i + 1, iv.len() as int);
                                    assert(iv.take(iv.len() as int) =~= iv);
                                }
                                return Err(
                                    Error::DeviceFormat(
                                        String::from_str(
                                            "invalid JSON format for attribute: too many fields",
                                        ),
                                    ),
                                );
                            }
                            let e = &entries[0];
                            match &e.1 {
                                JsonValue::Str(s) => {
                                    let ghost before = self.attrs@;
                                    self.attrs.push((e.0.clone(), s.clone()));
                                    assert(attrs_text(self.attrs@) =~= attrs_text(before).push(
                                        (e.0@, s@),
                                    ));
                                    i = i + 1;
                                },
                                other => {
                                    let mut m = String::from_str("invalid JSON format for attribute {");
                                    let k = str_debug(e.0.as_str());
                                    m.append(k.as_str());
                                    m.append(", ");
                                    let v = compact_text(other);
                                    m.append(v.as_str());
                                    m.append("}: value must be of type str");
                                    proof {
                                        lemma_attrs_error_sticks(iv, i + 1, iv.len() as int);
                                        assert(iv.take(iv.len() as int) =~= iv);
                                    }
                                    return Err(Error::DeviceFormat(m));
                                },
                            }
                        },
                        _ => {
                            proof {
                                lemma_attrs_error_sticks(iv, i + 1, iv.len() as int);
                                assert(iv.take(iv.len() as int) =~= iv);
                            }
                            return Err(
                                Error::DeviceFormat(
                                    String::from_str(
                                        "invalid JSON format for attribute: not an object",
                                    ),
                                ),
                            );
                        },
                    }
                }
                assert(iv.take(items.len() as int) =~= iv);
                Ok(())
            },
            _ => Err(Error::DeviceFormat(String::from_str("attributes field is not an array"))),
        }
    }
}


impl<'e> MDev<'e> {
    /// Reads a device definition stored under `parent`.
    pub fn load_from_json(&mut self, parent: String, json: &JsonValue) -> (r: Result<(), Error>)
        ensures
            final(self).env == old(self).env,
            final(self)@ == loaded_from_json(old(self)@, parent@, json_view(*json)).0,
            format_outcome(r, loaded_from_json(old(self)@, parent@, json_view(*json)).1),
    {
        self.parent = Some(parent);
        let key_type = String::from_str("mdev_type");
        let mdev_type = match json.field(&key_type) {
            Some(v) => match v.as_str() {
                Some(t) => t.clone(),
                None => {
                    return Err(
                        Error::DeviceFormat(String::from_str("JSON must specify 'mdev_type' field")),
                    );
                },
            },
            None => {
                return Err(
                    Error::DeviceFormat(String::from_str("JSON must specify 'mdev_type' field")),
                );
            },
        };
        self.mdev_type = Some(mdev_type);
        let key_start = String::from_str("start");
        let startval = match json.field(&key_start) {
            Some(v) => match v.as_str() {
                Some(s) => s,
                None => {
                    return Err(
                        Error::DeviceFormat(String::from_str("JSON must specify 'start' field")),
                    );
                },
            },
            None => {
                return Err(Error::DeviceFormat(String::from_str("JSON must specify 'start' field")));
            },
        };
        let auto = String::from_str("auto");
        self.autostart = *startval == auto;
        let key_attrs = String::from_str("attrs");
        match json.field(&key_attrs) {
            Some(a) => self.add_attributes(a),
            None => self.add_attributes(&JsonValue::Null),
        }
    }

    /// The device's stored definition: with `include_uuid`, wrapped in an
    /// object whose one member is named by the UUID. The type must be known.
    pub fn to_json(&self, include_uuid: bool) -> (r: Result<JsonValue, Error>)
        ensures
            match r {
                Ok(j) => self@.mdev_type matches Some(t) && json_view(j) == if include_uuid {
                    JsonView::Object(seq![(hyphenated(self.uuid.value), definition_json(self@, t))])
                } else {
                    definition_json(self@, t)
                },
                Err(e) => self.mdev_type is None && no_type_error(e, self@),
            },
    {
        let t = self.mdev_type()?;
        let mut items: Vec<JsonValue> = Vec::new();
        let mut i: usize = 0;
        while i < self.attrs.len()
            invariant
                i <= self.attrs.len(),
                items@.len() == i,
                forall|j: int| 0 <= j < i ==> #[trigger] json_view(items@[j]) == JsonView::Object(
                    seq![(self.attrs@[j].0@, JsonView::Str(self.attrs@[j].1@))],
                ),
            decreases self.attrs.len() - i,
        {
            items.push(attr_object(&self.attrs[i]));
            i = i + 1;
        }
        proof {
            lemma_items_view(items@);
            assert(items_view(items@) =~= attrs_json(self@.attrs));
        }
        let start = if self.autostart {
            String::from_str("auto")
        } else {
            String::from_str("manual")
        };
        let mut members: Vec<(String, JsonValue)> = Vec::new();
        members.push((String::from_str("attrs"), JsonValue::Array(items)));
        members.push((String::from_str("mdev_type"), JsonValue::Str(t.clone())));
        members.push((String::from_str("start"), JsonValue::Str(start)));
        proof {
            lemma_members_view(members@);
            assert(members_view(members@) =~= seq![
                ("attrs"@, JsonView::Array(attrs_json(self@.attrs))),
                ("mdev_type"@, JsonView::Str(t@)),
                ("start"@, JsonView::Str(start_text(self@.autostart))),
            ]);
        }
        let partial = JsonValue::Object(members);
        if include_uuid {
            let mut outer: Vec<(String, JsonValue)> = Vec::new();
            outer.push((hyphenated_text(&self.uuid), partial));
            proof {
                lemma_members_view(outer@);
                assert(members_view(outer@) =~= seq![
                    (hyphenated(self.uuid.value), definition_json(self@, t@)),
                ]);
            }
            Ok(JsonValue::Object(outer))
        } else {
            Ok(partial)
        }
    }
}

proof fn lemma_attrs_json_read_back(a: Seq<(Seq<char>, Seq<char>)>)
    ensures
        attrs_from_items(attrs_json(a)) == (a, Option::<Seq<char>>::None),
    decreases a.len(),
{
    if a.len() > 0 {
        lemma_attrs_json_read_back(a.drop_last());
        assert(attrs_json(a).drop_last() =~= attrs_json(a.drop_last()));
        assert(a.drop_last().push(a.last()) =~= a);
    } else {
        assert(attrs_json(a) =~= Seq::<JsonView>::empty());
        assert(a =~= Seq::<(Seq<char>, Seq<char>)>::empty());
    }
}

/// A stored definition reads back into the device it was written from: a
/// device that reads the definition of `d` under `parent` gets the parent,
/// `d`'s type and start mode, and `d`'s attributes after any it had, without
/// error.
pub proof fn law_definition_reads_back(d: MDevView, reader: MDevView, parent: Seq<char>)
    requires
        d.mdev_type is Some,
    ensures
        loaded_from_json(reader, parent, definition_json(d, d.mdev_type->0)) == (
            MDevView {
                parent: Some(parent),
                mdev_type: d.mdev_type,
                autostart: d.autostart,
                attrs: reader.attrs + d.attrs,
                ..reader
            },
            Option::<Seq<char>>::None,
        ),
{
    reveal_strlit("attrs");
    reveal_strlit("mdev_type");
    reveal_strlit("start");
    reveal_strlit("auto");
    reveal_strlit("manual");
    let t = d.mdev_type->0;
    let j = definition_json(d, t);
    let entries = seq![
        ("attrs"@, JsonView::Array(attrs_json(d.attrs))),
        ("mdev_type"@, JsonView::Str(t)),
        ("start"@, JsonView::Str(start_text(d.autostart))),
    ];
    assert("attrs"@.len() != "mdev_type"@.len());
    assert("attrs"@[0] != "start"@[0]);
    assert("mdev_type"@ != "start"@);
    assert(j == JsonView::Object(entries));
    assert(entries.drop_first()[0].0 == "mdev_type"@);
    assert(member(entries.drop_first(), "mdev_type"@) == Some(JsonView::Str(t)));
    assert(member(entries, "mdev_type"@) == Some(JsonView::Str(t)));
    assert(j.field_of("mdev_type"@) == Some(JsonView::Str(t)));
    let e2 = entries.drop_first().drop_first();
    assert(e2[0].0 == "start"@);
    assert(member(e2, "start"@) == Some(JsonView::Str(start_text(d.autostart))));
    assert(member(entries.drop_first(), "start"@) == member(e2, "start"@));
    assert(j.field_of("start"@) == Some(JsonView::Str(start_text(d.autostart))));
    assert(j.field_of("attrs"@) == Some(JsonView::Array(attrs_json(d.attrs))));
    assert("manual"@.len() != "auto"@.len());
    assert((start_text(d.autostart) == "auto"@) == d.autostart);
    lemma_attrs_json_read_back(d.attrs);
}

/// The error that a definition's message stands for.
pub open spec fn format_error(m: Option<Seq<char>>) -> Option<ErrorView> {
    match m {
        Some(x) => Some(ErrorView::DeviceFormat(x)),
        None => None,
    }
}

/// A device after it reads its stored definition, and the error where there
/// is one. A device without a parent has no stored definition and stays as
/// it is; otherwise `file` is what became of reading the definition at its
/// persistent path under `root`.
pub open spec fn definition_loaded(d: MDevView, root: Seq<char>, file: JsonFile) -> (MDevView, Option<ErrorView>) {
    match d.parent {
        None => (d, None),
        Some(p) => {
            let path = persistent_path_of(root, p, d.uuid);
            match file_view(file) {
                JsonFileView::Unopened(io) => (
                    d,
                    Some(ErrorView::IOError("Failed to open file "@ + path_debug_text(path), io)),
                ),
                JsonFileView::Unread(io) => (
                    d,
                    Some(ErrorView::IOError("Failed to read file "@ + path_debug_text(path), io)),
                ),
                JsonFileView::Invalid(m) => (d, Some(ErrorView::InvalidJSON(m))),
                JsonFileView::Parsed(j) => {
                    let l = loaded_from_json(d, p, j);
                    (l.0, format_error(l.1))
                },
            }
        },
    }
}

/// `r` reports the outcome `e`.
pub open spec fn error_outcome(r: Result<(), Error>, e: Option<ErrorView>) -> bool {
    match e {
        None => r is Ok,
        Some(ev) => r matches Err(x) && x@ == ev,
    }
}

/// A device read from a definition file at `path` under `parent`, and the
/// error where there is one. `file` is what became of reading it.
pub open spec fn device_from_file(uuid: Uuid, parent: Seq<char>, path: Seq<char>, file: JsonFile) -> Result<MDevView, ErrorView> {
    match file_view(file) {
        JsonFileView::Unopened(io) => Err(ErrorView::IOError("Unable to read file "@ + path_debug_text(path), io)),
        JsonFileView::Unread(io) => Err(ErrorView::IOError("Unable to read jsonfile "@ + path_debug_text(path), io)),
        JsonFileView::Invalid(m) => Err(ErrorView::InvalidJSON(m)),
        JsonFileView::Parsed(j) => {
            let l = loaded_from_json(fresh_view(uuid), parent, j);
            match l.1 {
                Some(m) => Err(ErrorView::DeviceFormat(m)),
                None => Ok(l.0),
            }
        },
    }
}

impl<'e> MDev<'e> {
    /// Reads the device's stored definition, if it has a parent (and so a
    /// place where its definition is kept); `file` is what became of reading
    /// the file at [`MDev::persistent_path`].
    pub fn load_definition(&mut self, file: JsonFile) -> (r: Result<(), Error>)
        ensures
            final(self).env == old(self).env,
            final(self)@ == definition_loaded(old(self)@, old(self).env@, file).0,
            error_outcome(r, definition_loaded(old(self)@, old(self).env@, file).1),
    {
        let path = match self.persistent_path() {
            Ok(p) => p,
            Err(_) => {
                return Ok(());
            },
        };
        let json = match file {
            JsonFile::Unopened(io) => {
                let mut m = String::from_str("Failed to open file ");
                let d = path_debug(path.as_str());
                m.append(d.as_str());
                return Err(Error::IOError(m, io));
            },
            JsonFile::Unread(io) => {
                let mut m = String::from_str("Failed to read file ");
                let d = path_debug(path.as_str());
                m.append(d.as_str());
                return Err(Error::IOError(m, io));
            },
            JsonFile::Read(text) => match parse_json(text.as_str()) {
                Ok(j) => j,
                Err(m) => {
                    return Err(Error::InvalidJSON(m));
                },
            },
        };
        let parent = self.parent()?.clone();
        self.load_from_json(parent, &json)
    }

    /// A device read from the definition file at `jsonfile`; `file` is what
    /// became of reading it.
    pub fn new_from_jsonfile(env: &'e Environment, uuid: Uuid, parent: String, jsonfile: &String, file: JsonFile) -> (r: Result<MDev<'e>, Error>)
        ensures
            match device_from_file(uuid, parent@, jsonfile@, file) {
                Ok(d) => r matches Ok(x) && x@ == d && x.env == env,
                Err(ev) => r matches Err(x) && x@ == ev,
            },
    {
        let json = match file {
            JsonFile::Unopened(io) => {
                let mut m = String::from_str("Unable to read file ");
                let d = path_debug(jsonfile.as_str());
                m.append(d.as_str());
                return Err(Error::IOError(m, io));
            },
            JsonFile::Unread(io) => {
                let mut m = String::from_str("Unable to read jsonfile ");
                let d = path_debug(jsonfile.as_str());
                m.append(d.as_str());
                return Err(Error::IOError(m, io));
            },
            JsonFile::Read(text) => match parse_json(text.as_str()) {
                Ok(j) => j,
                Err(m) => {
                    return Err(Error::InvalidJSON(m));
                },
            },
        };
        let mut d = MDev::new(env, uuid);
        match d.load_from_json(parent, &json) {
            Ok(()) => Ok(d),
            Err(e) => Err(e),
        }
    }
}

impl<'e> MDev<'e> {
    /// What storing the device's definition writes: the path of its file (in
    /// its parent's directory of the configuration) and the definition as
    /// pretty JSON text. A device without a type, and then a device without a
    /// parent, is refused; any other is written.
    pub fn config_to_write(&self) -> (r: Result<(String, String), Error>)
        ensures
            self.mdev_type is Some && self.parent is Some ==> r is Ok,
            match r {
                Ok((path, text)) => {
                    &&& self@.mdev_type matches Some(t)
                    &&& pretty_json(definition_json(self@, t)) == Ok::<Seq<char>, Seq<char>>(text@)
                    &&& self@.parent matches Some(p)
                    &&& path@ == persistent_path_of(self.env@, p, self.uuid)
                },
                Err(e) => match self@.mdev_type {
                    None => no_type_error(e, self@),
                    Some(t) => match pretty_json(definition_json(self@, t)) {
                        Err(m) => e@ == ErrorView::InvalidJSON(m),
                        Ok(_) => self.parent is None && no_parent_error(e, self.uuid),
                    },
                },
            },
    {
        let j = self.to_json(false)?;
        let text = match pretty_text(&j) {
            Ok(t) => t,
            Err(m) => {
                return Err(Error::InvalidJSON(m));
            },
        };
        let path = self.persistent_path()?;
        Ok((path, text))
    }
}

/// A definition stored as text reads back into the device it was written
/// from: where the text of `d`'s definition parses back into that definition
/// (as serde_json's pretty text of a value parses back into the value), a
/// fresh device under the same parent that reads it gets `d`'s type, start
/// mode and attributes, without error.
pub proof fn law_stored_definition_reads_back(d: MDevView, root: Seq<char>, parent: Seq<char>, text: String)
    requires
        d.mdev_type is Some,
        parsed_json(text@) == Ok::<JsonView, Seq<char>>(definition_json(d, d.mdev_type->0)),
    ensures
        definition_loaded(
            MDevView { parent: Some(parent), ..fresh_view(d.uuid) },
            root,
            JsonFile::Read(text),
        ) == (
            MDevView {
                parent: Some(parent),
                mdev_type: d.mdev_type,
                autostart: d.autostart,
                attrs: d.attrs,
                ..fresh_view(d.uuid)
            },
            Option::<ErrorView>::None,
        ),
{
    let reader = MDevView { parent: Some(parent), ..fresh_view(d.uuid) };
    law_definition_reads_back(d, reader, parent);
    assert(reader.attrs + d.attrs =~= d.attrs);
}

/// A definition without an "attrs" member loads without error when its
/// "mdev_type" and "start" are strings: the device takes the parent, the
/// type and the start mode ("auto" or not) and keeps its attributes.
pub proof fn law_definition_without_attributes(d: MDevView, parent: Seq<char>, json: JsonView, t: Seq<char>, st: Seq<char>)
    requires
        json.field_of("mdev_type"@) == Some(JsonView::Str(t)),
        json.field_of("start"@) == Some(JsonView::Str(st)),
        json.field_of("attrs"@) is None,
    ensures
        loaded_from_json(d, parent, json) == (
            MDevView { parent: Some(parent), mdev_type: Some(t), autostart: st == "auto"@, ..d },
            Option::<Seq<char>>::None,
        ),
{
}

} // verus!
