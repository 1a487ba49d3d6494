use mdevctl::device_type::{sort_by_typename, MDevType};
use mdevctl::device_uuid::Uuid;
use mdevctl::environment::Environment;
use mdevctl::error::{Error, IoError};
use mdevctl::json::{JsonFile, JsonValue};
use mdevctl::lifecycle::{StartAction, StartStage};
use mdevctl::mdev::{FormatType, MDev, MDevSysfsData};

const U: u128 = 0x976d8cc2_4bfc_43b9_b9f9_f4af2de91ab9;
const U_TEXT: &str = "976d8cc2-4bfc-43b9-b9f9-f4af2de91ab9";

fn s(x: &str) -> String {
    x.to_string()
}

fn obj(members: Vec<(&str, JsonValue)>) -> JsonValue {
    JsonValue::Object(members.into_iter().map(|(k, v)| (s(k), v)).collect())
}

/// serde_json's value for the library's (a number's text parsed as a number).
fn outside(v: &JsonValue) -> serde_json::Value {
    match v {
        JsonValue::Null => serde_json::Value::Null,
        JsonValue::Bool(b) => serde_json::Value::Bool(*b),
        JsonValue::Number(t) => serde_json::Value::Number(t.parse::<serde_json::Number>().unwrap()),
        JsonValue::Str(x) => serde_json::Value::String(x.clone()),
        JsonValue::Array(items) => serde_json::Value::Array(items.iter().map(outside).collect()),
        JsonValue::Object(m) => serde_json::Value::Object(m.iter().map(|(k, x)| (k.clone(), outside(x))).collect()),
    }
}

/// The text serde_json writes for a library value.
fn render(v: &JsonValue) -> String {
    outside(v).to_string()
}

fn jstr(x: &str) -> JsonValue {
    JsonValue::Str(s(x))
}

fn definition(t: &str, start: &str, attrs: Vec<(&str, &str)>) -> JsonValue {
    obj(vec![
        (
            "attrs",
            JsonValue::Array(attrs.into_iter().map(|(k, v)| obj(vec![(k, jstr(v))])).collect()),
        ),
        ("mdev_type", jstr(t)),
        ("start", jstr(start)),
    ])
}

fn sysfs(parent: &str, t: &str) -> MDevSysfsData {
    MDevSysfsData { uuid: Uuid { value: U }, parent: s(parent), mdev_type: s(t) }
}

#[test]
fn new_device_knows_only_its_uuid() {
    let env = Environment::new(s("/r"), None);
    let d = MDev::new(&env, Uuid { value: U });
    assert!(!d.active && !d.autostart && d.parent.is_none() && d.mdev_type.is_none());
    assert!(d.attrs.is_empty());
    match d.parent() {
        Err(Error::DeviceState(m, u, p)) => {
            assert_eq!(m, "parent device is not specified");
            assert_eq!(u.value, U);
            assert!(p.is_none());
        }
        other => panic!("unexpected {:?}", other),
    }
    match d.mdev_type() {
        Err(Error::DeviceState(m, _, None)) => assert_eq!(m, "mdev_type is not specified"),
        other => panic!("unexpected {:?}", other),
    }
    assert!(matches!(d.persistent_path(), Err(Error::DeviceState(..))));
    assert_eq!(d.active_path(), format!("/r/sys/bus/mdev/devices/{}", U_TEXT));
}

#[test]
fn paths_of_a_device_with_a_parent() {
    let env = Environment::new(s("/r"), None);
    let mut d = MDev::new(&env, Uuid { value: U });
    d.parent = Some(s("0000:00:02.0"));
    assert_eq!(d.persistent_path().unwrap(), format!("/r/etc/mdevctl.d/0000:00:02.0/{}", U_TEXT));
    assert_eq!(
        MDevSysfsData::active_path(&env, &Uuid { value: U }),
        format!("/r/sys/bus/mdev/devices/{}", U_TEXT)
    );
}

#[test]
fn sysfs_data_once_taken_matches() {
    let env = Environment::new(s("/"), None);
    let mut d = MDev::new(&env, Uuid { value: U });
    assert!(!d.sysfs_data_matches(&sysfs("p", "t")));
    d.set_sysfs_data(sysfs("p", "t"));
    assert!(d.active);
    assert_eq!(d.parent.as_deref(), Some("p"));
    assert_eq!(d.mdev_type.as_deref(), Some("t"));
    assert!(d.sysfs_data_matches(&sysfs("p", "t")));
    assert!(!d.sysfs_data_matches(&sysfs("p", "u")));
    assert!(!d.sysfs_data_matches(&sysfs("q", "t")));
}

#[test]
fn sysfs_data_of_another_device_is_ignored() {
    let env = Environment::new(s("/"), None);
    let mut d = MDev::new(&env, Uuid { value: 5 });
    d.set_sysfs_data(sysfs("p", "t"));
    assert!(!d.active && d.parent.is_none() && d.mdev_type.is_none());
}

#[test]
fn definition_is_read() {
    let env = Environment::new(s("/"), None);
    let mut d = MDev::new(&env, Uuid { value: U });
    let j = definition("i915-GVTg_V5_4", "auto", vec![("a", "1"), ("b", "2")]);
    assert!(d.load_from_json(s("0000:00:02.0"), &j).is_ok());
    assert_eq!(d.parent.as_deref(), Some("0000:00:02.0"));
    assert_eq!(d.mdev_type.as_deref(), Some("i915-GVTg_V5_4"));
    assert!(d.autostart);
    assert_eq!(d.attrs, vec![(s("a"), s("1")), (s("b"), s("2"))]);
}

#[test]
fn definition_written_reads_back() {
    let env = Environment::new(s("/"), None);
    let mut d = MDev::new(&env, Uuid { value: U });
    d.mdev_type = Some(s("nvidia-35"));
    d.autostart = false;
    d.attrs = vec![(s("x"), s("y \"quoted\"")), (s("k"), s("v"))];
    let j = d.to_json(false).unwrap();
    assert_eq!(
        render(&j),
        "{\"attrs\":[{\"x\":\"y \\\"quoted\\\"\"},{\"k\":\"v\"}],\"mdev_type\":\"nvidia-35\",\"start\":\"manual\"}"
    );
    let mut e = MDev::new(&env, Uuid { value: U });
    assert!(e.load_from_json(s("p"), &j).is_ok());
    assert_eq!(e.mdev_type, d.mdev_type);
    assert_eq!(e.autostart, d.autostart);
    assert_eq!(e.attrs, d.attrs);
    assert_eq!(e.parent.as_deref(), Some("p"));
}

#[test]
fn definition_with_uuid_is_wrapped() {
    let env = Environment::new(s("/"), None);
    let mut d = MDev::new(&env, Uuid { value: U });
    d.mdev_type = Some(s("t"));
    d.autostart = true;
    let j = d.to_json(true).unwrap();
    assert_eq!(
        render(&j),
        format!("{{\"{}\":{{\"attrs\":[],\"mdev_type\":\"t\",\"start\":\"auto\"}}}}", U_TEXT)
    );
    let untyped = MDev::new(&env, Uuid { value: U });
    assert!(matches!(untyped.to_json(false), Err(Error::DeviceState(..))));
}

fn load_error(j: &JsonValue) -> String {
    let env = Environment::new(s("/"), None);
    let mut d = MDev::new(&env, Uuid { value: U });
    match d.load_from_json(s("p"), j) {
        Err(Error::DeviceFormat(m)) => m,
        other => panic!("unexpected {:?}", other),
    }
}

#[test]
fn definition_errors() {
    assert_eq!(load_error(&obj(vec![])), "JSON must specify 'mdev_type' field");
    assert_eq!(load_error(&obj(vec![("mdev_type", jstr("t"))])), "JSON must specify 'start' field");
    assert_eq!(
        load_error(&obj(vec![("mdev_type", JsonValue::Number(s("1")))])),
        "JSON must specify 'mdev_type' field"
    );
    assert_eq!(
        load_error(&obj(vec![("attrs", jstr("x")), ("mdev_type", jstr("t")), ("start", jstr("auto"))])),
        "attributes field is not an array"
    );
    assert_eq!(
        load_error(&obj(vec![
            ("attrs", JsonValue::Array(vec![jstr("x")])),
            ("mdev_type", jstr("t")),
            ("start", jstr("auto"))
        ])),
        "invalid JSON format for attribute: not an object"
    );
    assert_eq!(
        load_error(&obj(vec![
            ("attrs", JsonValue::Array(vec![obj(vec![("a", jstr("1")), ("b", jstr("2"))])])),
            ("mdev_type", jstr("t")),
            ("start", jstr("auto"))
        ])),
        "invalid JSON format for attribute: too many fields"
    );
    assert_eq!(
        load_error(&obj(vec![
            ("attrs", JsonValue::Array(vec![obj(vec![("a\"b", JsonValue::Array(vec![JsonValue::Number(s("1")), JsonValue::Null, JsonValue::Bool(true)]))])])),
            ("mdev_type", jstr("t")),
            ("start", jstr("auto"))
        ])),
        "invalid JSON format for attribute {\"a\\\"b\", [1,null,true]}: value must be of type str"
    );
}

#[test]
fn attributes_before_a_bad_one_are_kept() {
    let env = Environment::new(s("/"), None);
    let mut d = MDev::new(&env, Uuid { value: U });
    let attrs = JsonValue::Array(vec![obj(vec![("a", jstr("1"))]), jstr("bad"), obj(vec![("c", jstr("3"))])]);
    assert!(d.add_attributes(&attrs).is_err());
    assert_eq!(d.attrs, vec![(s("a"), s("1"))]);
    assert!(d.add_attributes(&JsonValue::Null).is_ok());
    assert_eq!(d.attrs.len(), 1);
}

#[test]
fn start_mode_other_than_auto_is_manual() {
    let env = Environment::new(s("/"), None);
    let mut d = MDev::new(&env, Uuid { value: U });
    assert!(d.load_from_json(s("p"), &definition("t", "manual", vec![])).is_ok());
    assert!(!d.autostart);
    assert!(d.load_from_json(s("p"), &definition("t", "Auto", vec![])).is_ok());
    assert!(!d.autostart);
}

#[test]
fn compact_text_escapes_like_serde_json() {
    let tricky = "a\u{1}\n\t\"\\\u{7f}é";
    let bad = obj(vec![
        ("attrs", JsonValue::Array(vec![obj(vec![("k", JsonValue::Array(vec![jstr(tricky)]))])])),
        ("mdev_type", jstr("t")),
        ("start", jstr("auto")),
    ]);
    let theirs = serde_json::Value::Array(vec![serde_json::Value::String(s(tricky))]).to_string();
    assert_eq!(
        load_error(&bad),
        format!("invalid JSON format for attribute {{\"k\", {}}}: value must be of type str", theirs)
    );
}

fn full_device(env: &Environment) -> MDev<'_> {
    let mut d = MDev::new(env, Uuid { value: U });
    d.parent = Some(s("0000:00:02.0"));
    d.mdev_type = Some(s("i915-GVTg_V5_4"));
    d
}

#[test]
fn text_of_a_running_device() {
    let env = Environment::new(s("/"), None);
    let mut d = full_device(&env);
    match d.to_text(FormatType::Active, false, true) {
        Err(Error::DeviceState(m, _, p)) => {
            assert_eq!(m, "Device is not active");
            assert_eq!(p.as_deref(), Some("0000:00:02.0"));
        }
        other => panic!("unexpected {:?}", other),
    }
    d.active = true;
    assert_eq!(
        d.to_text(FormatType::Active, false, true).unwrap(),
        format!("{} 0000:00:02.0 i915-GVTg_V5_4 manual (defined)\n", U_TEXT)
    );
    assert_eq!(
        d.to_text(FormatType::Active, false, false).unwrap(),
        format!("{} 0000:00:02.0 i915-GVTg_V5_4 manual\n", U_TEXT)
    );
}

#[test]
fn text_of_a_defined_device_with_attributes() {
    let env = Environment::new(s("/"), None);
    let mut d = full_device(&env);
    d.autostart = true;
    d.active = true;
    d.attrs = vec![(s("a"), s("1")), (s("b"), s("2"))];
    assert!(matches!(d.to_text(FormatType::Defined, true, false), Err(Error::DeviceState(..))));
    assert_eq!(
        d.to_text(FormatType::Defined, true, true).unwrap(),
        format!(
            "{} 0000:00:02.0 i915-GVTg_V5_4 auto (active)\n  Attrs:\n    @{{0}}: {{\"a\":\"1\"}}\n    @{{1}}: {{\"b\":\"2\"}}\n",
            U_TEXT
        )
    );
    assert_eq!(d.fmt_attrs(), "  Attrs:\n    @{0}: {\"a\":\"1\"}\n    @{1}: {\"b\":\"2\"}\n");
}

#[test]
fn text_needs_parent_and_type() {
    let env = Environment::new(s("/"), None);
    let mut d = MDev::new(&env, Uuid { value: U });
    d.active = true;
    assert!(matches!(d.to_text(FormatType::Active, false, false), Err(Error::DeviceState(m, _, _)) if m == "parent device is not specified"));
    d.parent = Some(s("p"));
    assert!(matches!(d.to_text(FormatType::Active, false, false), Err(Error::DeviceState(m, _, _)) if m == "mdev_type is not specified"));
}

#[test]
fn adding_and_deleting_attributes() {
    let env = Environment::new(s("/"), None);
    let mut d = full_device(&env);
    assert!(d.add_attribute(s("a"), s("1"), None).is_ok());
    assert!(d.add_attribute(s("c"), s("3"), None).is_ok());
    assert!(d.add_attribute(s("b"), s("2"), Some(1)).is_ok());
    assert_eq!(d.attrs, vec![(s("a"), s("1")), (s("b"), s("2")), (s("c"), s("3"))]);
    let before = d.attrs.clone();
    assert!(d.add_attribute(s("x"), s("9"), Some(2)).is_ok());
    assert!(d.delete_attribute(Some(2)).is_ok());
    assert_eq!(d.attrs, before);
    assert!(d.add_attribute(s("x"), s("9"), None).is_ok());
    assert!(d.delete_attribute(None).is_ok());
    assert_eq!(d.attrs, before);
    match d.add_attribute(s("z"), s("0"), Some(4)) {
        Err(Error::InvalidConfiguration(m)) => assert_eq!(
            m,
            "Attribute index 4 is invalid\n  Attrs:\n    @{0}: {\"a\":\"1\"}\n    @{1}: {\"b\":\"2\"}\n    @{2}: {\"c\":\"3\"}\n"
        ),
        other => panic!("unexpected {:?}", other),
    }
    assert!(d.delete_attribute(Some(0)).is_ok());
    assert_eq!(d.attrs, vec![(s("b"), s("2")), (s("c"), s("3"))]);
}

#[test]
fn deleting_from_no_attributes() {
    let env = Environment::new(s("/"), None);
    let mut d = full_device(&env);
    assert!(d.delete_attribute(None).is_ok());
    match d.delete_attribute(Some(0)) {
        Err(Error::InvalidConfiguration(m)) => {
            assert_eq!(m, format!("Attribute index 0 is invalid\nDevice {} has no attributes", U_TEXT))
        }
        other => panic!("unexpected {:?}", other),
    }
}

fn ty(name: &str, avail: i32) -> MDevType {
    let mut t = MDevType::new();
    t.parent = s("p");
    t.typename = s(name);
    t.available_instances = avail;
    t.device_api = s("vfio-pci");
    t
}

#[test]
fn type_as_json() {
    let mut t = ty("nvidia-35", -3);
    assert_eq!(
        render(&t.to_json()),
        "{\"nvidia-35\":{\"available_instances\":-3,\"device_api\":\"vfio-pci\"}}"
    );
    t.name = s("GRID M60-0B");
    t.description = s("num_heads=2, frl_config=45");
    assert_eq!(
        render(&t.to_json()),
        "{\"nvidia-35\":{\"available_instances\":-3,\"description\":\"num_heads=2, frl_config=45\",\"device_api\":\"vfio-pci\",\"name\":\"GRID M60-0B\"}}"
    );
    let n = MDevType::new();
    assert!(n.typename.is_empty() && n.available_instances == 0);
}

#[test]
fn types_sorted_by_name() {
    let v = vec![ty("nvidia-36", 1), ty("nvidia-35", 2), ty("i915", 3), ty("nvidia-35a", 4)];
    let sorted: Vec<String> = sort_by_typename(v).into_iter().map(|t| t.typename).collect();
    assert_eq!(sorted, vec![s("i915"), s("nvidia-35"), s("nvidia-35a"), s("nvidia-36")]);
    assert!(sort_by_typename(vec![]).is_empty());
}

fn io(not_found: bool) -> IoError {
    IoError { not_found, message: s(if not_found { "No such file or directory" } else { "Permission denied" }) }
}

#[test]
fn sysfs_reads_combined() {
    let u = Uuid { value: U };
    let d = MDevSysfsData::load(&u, Ok(s("p")), Ok(s("t"))).unwrap();
    assert_eq!((d.uuid, d.parent.as_str(), d.mdev_type.as_str()), (u, "p", "t"));
    let missing = || Err(Error::IOError(s("x"), io(true)));
    assert!(matches!(MDevSysfsData::load(&u, missing(), Ok(s("t"))), Err(Error::DeviceNotFound)));
    assert!(matches!(MDevSysfsData::load(&u, Ok(s("p")), missing()), Err(Error::DeviceNotFound)));
    match MDevSysfsData::load(&u, Err(Error::System(s("boom"))), Err(Error::System(s("second")))) {
        Err(Error::System(m)) => assert_eq!(m, "boom"),
        other => panic!("unexpected {:?}", other),
    }
    match MDevSysfsData::load(&u, missing(), Err(Error::IOError(s("y"), io(false)))) {
        Err(Error::IOError(m, e)) => assert!(m == "y" && !e.not_found),
        other => panic!("unexpected {:?}", other),
    }
    let env = Environment::new(s("/"), None);
    let dev = MDev::new(&env, u);
    assert!(MDevSysfsData::load_for_mdev(&dev, Ok(s("p")), Ok(s("t"))).is_ok());
}

#[test]
fn stored_definition_is_read_where_there_is_a_parent() {
    let env = Environment::new(s("/r"), None);
    let mut orphan = MDev::new(&env, Uuid { value: U });
    assert!(orphan.load_definition(JsonFile::Read(s("x"))).is_ok());
    assert!(orphan.mdev_type.is_none());
    let mut d = MDev::new(&env, Uuid { value: U });
    d.parent = Some(s("p"));
    match d.load_definition(JsonFile::Unopened(io(true))) {
        Err(Error::IOError(m, e)) => {
            assert_eq!(m, format!("Failed to open file \"/r/etc/mdevctl.d/p/{}\"", U_TEXT));
            assert!(e.not_found);
        }
        other => panic!("unexpected {:?}", other),
    }
    match d.load_definition(JsonFile::Unread(io(false))) {
        Err(Error::IOError(m, _)) => assert_eq!(m, format!("Failed to read file \"/r/etc/mdevctl.d/p/{}\"", U_TEXT)),
        other => panic!("unexpected {:?}", other),
    }
    match d.load_definition(JsonFile::Read(s("{\"mdev_type\": "))) {
        Err(Error::InvalidJSON(m)) => assert_eq!(m, "EOF while parsing a value at line 1 column 14"),
        other => panic!("unexpected {:?}", other),
    }
    assert!(d.load_definition(JsonFile::Read(render(&definition("t", "auto", vec![("a", "b")])))).is_ok());
    assert_eq!(d.mdev_type.as_deref(), Some("t"));
    assert!(d.autostart);
    assert_eq!(d.attrs, vec![(s("a"), s("b"))]);
}

#[test]
fn device_from_a_definition_file() {
    let env = Environment::new(s("/r"), None);
    let path = s("/tmp/dev.json");
    let d = MDev::new_from_jsonfile(&env, Uuid { value: U }, s("p"), &path, JsonFile::Read(render(&definition("t", "manual", vec![])))).unwrap();
    assert_eq!(d.parent.as_deref(), Some("p"));
    assert!(!d.autostart && !d.active);
    match MDev::new_from_jsonfile(&env, Uuid { value: U }, s("p"), &path, JsonFile::Unopened(io(true))) {
        Err(Error::IOError(m, _)) => assert_eq!(m, "Unable to read file \"/tmp/dev.json\""),
        other => panic!("unexpected {:?}", other),
    }
    match MDev::new_from_jsonfile(&env, Uuid { value: U }, s("p"), &path, JsonFile::Unread(io(false))) {
        Err(Error::IOError(m, _)) => assert_eq!(m, "Unable to read jsonfile \"/tmp/dev.json\""),
        other => panic!("unexpected {:?}", other),
    }
    assert!(matches!(
        MDev::new_from_jsonfile(&env, Uuid { value: U }, s("p"), &path, JsonFile::Read(s("{}"))),
        Err(Error::DeviceFormat(_))
    ));
}

#[test]
fn configuration_to_write() {
    let env = Environment::new(s("/r"), None);
    let mut d = MDev::new(&env, Uuid { value: U });
    assert!(matches!(d.config_to_write(), Err(Error::DeviceState(m, _, None)) if m == "mdev_type is not specified"));
    d.mdev_type = Some(s("t"));
    d.attrs = vec![(s("a"), s("1"))];
    assert!(matches!(d.config_to_write(), Err(Error::DeviceState(m, _, None)) if m == "parent device is not specified"));
    d.parent = Some(s("p"));
    let (path, text) = d.config_to_write().unwrap();
    assert_eq!(path, format!("/r/etc/mdevctl.d/p/{}", U_TEXT));
    let expected = serde_json::to_string_pretty(&outside(&definition("t", "manual", vec![("a", "1")]))).unwrap();
    assert_eq!(text, expected);
    assert!(text.contains("\n  \"mdev_type\": \"t\""));
    let mut back = MDev::new(&env, Uuid { value: U });
    back.parent = Some(s("p"));
    assert!(back.load_definition(JsonFile::Read(text)).is_ok());
    assert_eq!((back.mdev_type, back.autostart, back.attrs), (d.mdev_type.clone(), false, d.attrs.clone()));
}

#[test]
fn stopping_a_device() {
    let env = Environment::new(s("/r"), None);
    let mut d = MDev::new(&env, Uuid { value: U });
    d.active = true;
    assert_eq!(d.removal_path(), format!("/r/sys/bus/mdev/devices/{}/remove", U_TEXT));
    match d.stopped(Err(io(false))) {
        Err(Error::IOError(m, e)) => assert!(m == format!("Error removing device {}", U_TEXT) && !e.not_found),
        other => panic!("unexpected {:?}", other),
    }
    assert!(d.active);
    assert!(d.stopped(Ok(())).is_ok());
    assert!(!d.active);
}

#[test]
fn starting_a_device_step_by_step() {
    let env = Environment::new(s("/r"), None);
    let mut d = MDev::new(&env, Uuid { value: U });
    let fail = || Err(Error::System(s("no")));
    assert!(matches!(d.start_step(StartStage::Creating, fail()), StartAction::Finish(Err(Error::System(_)))));
    assert!(matches!(d.start_step(StartStage::Creating, Ok(())), StartAction::Finish(Ok(()))));
    d.attrs = vec![(s("a"), s("1")), (s("b"), s("2"))];
    assert!(matches!(d.start_step(StartStage::Creating, Ok(())), StartAction::WriteAttr(0)));
    assert!(matches!(d.start_step(StartStage::Writing(0), Ok(())), StartAction::WriteAttr(1)));
    assert!(matches!(d.start_step(StartStage::Writing(1), Ok(())), StartAction::Finish(Ok(()))));
    let stop = d.start_step(StartStage::Writing(1), Err(Error::Unsupported(s("Invalid attribute 'b'"))));
    let pending = match stop {
        StartAction::Stop(e) => e,
        _ => panic!("expected a stop"),
    };
    match d.start_step(StartStage::Stopping(pending), Ok(())) {
        StartAction::Finish(Err(Error::Unsupported(m))) => assert_eq!(m, "Invalid attribute 'b'"),
        _ => panic!("expected the attribute's error"),
    }
    assert!(matches!(
        d.start_step(StartStage::Stopping(Error::System(s("x"))), fail()),
        StartAction::Finish(Err(Error::System(m))) if m == "no"
    ));
}

#[test]
fn creating_a_device() {
    let env = Environment::new(s("/r"), None);
    let mut d = MDev::new(&env, Uuid { value: U });
    assert!(matches!(d.created(Ok(())), Err(Error::DeviceState(m, _, None)) if m == "parent device is not specified"));
    d.parent = Some(s("0000:00:02.0"));
    assert!(matches!(d.created(Ok(())), Err(Error::DeviceState(m, _, Some(_))) if m == "mdev_type is not specified"));
    assert!(!d.active);
    d.mdev_type = Some(s("i915-GVTg_V5_4"));
    match d.created(Err(io(false))) {
        Err(Error::IOError(m, e)) => {
            assert_eq!(m, format!("Failed to create mdev {}, type i915-GVTg_V5_4 on 0000:00:02.0", U_TEXT));
            assert!(!e.not_found);
        }
        other => panic!("unexpected {:?}", other),
    }
    assert!(!d.active);
    assert!(d.created(Ok(())).is_ok());
    assert!(d.active);
}
