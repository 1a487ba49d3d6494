use mdevctl::active::ActiveEntry;
use mdevctl::defined::{DefinedChildEntry, DefinedParentEntry};
use mdevctl::json::JsonFile;
use mdevctl::device_uuid::Uuid;
use mdevctl::environment::Environment;
use mdevctl::error::{Error, IoError};
use mdevctl::json::JsonValue;
use mdevctl::mdev::{MDev, MDevSysfsData};
use mdevctl::supported_types::{ParentTypesEntry, TypeEntry};
use mdevctl::text_map::TextMap;

const U1: u128 = 0x11111111_1111_1111_1111_111111111111;
const U2: u128 = 0x22222222_2222_2222_2222_222222222222;
const U1_TEXT: &str = "11111111-1111-1111-1111-111111111111";
const U2_TEXT: &str = "22222222-2222-2222-2222-222222222222";

/// serde_json's value for the library's (a number's text parsed as a number).
fn outside(v: &JsonValue) -> serde_json::Value {
    match v {
        JsonValue::Null => serde_json::Value::Null,
        JsonValue::Bool(b) => serde_json::Value::Bool(*b),
        JsonValue::Number(t) => serde_json::Value::Number(t.parse::<serde_json::Number>().unwrap()),
        JsonValue::Str(x) => serde_json::Value::String(x.clone()),
        JsonValue::Array(items) => serde_json::Value::Array(items.iter().map(outside).collect()),
        JsonValue::Object(m) => serde_json::Value::Object(m.iter().map(|(k, x)| (k.clone(), outside(x))).collect()),
    }
}

/// The text serde_json writes for a library value.
fn render(v: &JsonValue) -> String {
    outside(v).to_string()
}

fn s(x: &str) -> String {
    x.to_string()
}

fn io(not_found: bool, m: &str) -> IoError {
    IoError { not_found, message: s(m) }
}

fn obj(members: Vec<(&str, JsonValue)>) -> JsonValue {
    JsonValue::Object(members.into_iter().map(|(k, v)| (s(k), v)).collect())
}

fn definition(t: &str, start: &str) -> JsonValue {
    obj(vec![
        ("attrs", JsonValue::Array(vec![])),
        ("mdev_type", JsonValue::Str(s(t))),
        ("start", JsonValue::Str(s(start))),
    ])
}

// ---------------------------------------------------------------- creation

fn device<'e>(env: &'e Environment, parent: &str, t: &str) -> MDev<'e> {
    let mut d = MDev::new(env, Uuid { value: U1 });
    d.parent = Some(s(parent));
    d.mdev_type = Some(s(t));
    d
}

#[test]
fn parent_directory_found_or_suggested() {
    let env = Environment::new(s("/r"), None);
    let d = device(&env, "0000:00:02.0", "t");
    assert_eq!(d.find_parent_dir(true, Ok(vec![])).unwrap(), "/r/sys/class/mdev_bus/0000:00:02.0");
    let d = device(&env, "0000:00:0A.0", "t");
    match d.find_parent_dir(false, Ok(vec![Ok(s("other")), Ok(s("0000:00:0a.0"))])) {
        Err(Error::ParentNotFound(m)) => assert_eq!(m, "0000:00:0A.0 (Did you mean 0000:00:0a.0?)"),
        other => panic!("unexpected {:?}", other),
    }
    match d.find_parent_dir(false, Ok(vec![Ok(s("other"))])) {
        Err(Error::ParentNotFound(m)) => assert_eq!(m, "0000:00:0A.0"),
        other => panic!("unexpected {:?}", other),
    }
    match d.find_parent_dir(false, Ok(vec![Err(io(false, "bad")), Ok(s("0000:00:0a.0"))])) {
        Err(Error::IOError(m, e)) => {
            assert_eq!(m, "Failed to read entry in directory parent device directory");
            assert_eq!(e.message, "bad");
        }
        other => panic!("unexpected {:?}", other),
    }
    match d.find_parent_dir(false, Err(io(true, "gone"))) {
        Err(Error::IOError(m, _)) => assert_eq!(m, "Failed to read parent device directory"),
        other => panic!("unexpected {:?}", other),
    }
    let orphan = MDev::new(&env, Uuid { value: U1 });
    assert!(matches!(orphan.find_parent_dir(true, Ok(vec![])), Err(Error::DeviceState(..))));
}

fn absent() -> Result<MDevSysfsData, Error> {
    Err(Error::DeviceNotFound)
}

#[test]
fn creation_checks() {
    let env = Environment::new(s("/r"), None);
    let d = device(&env, "p", "t");
    let pd = || Ok(s("/r/sys/class/mdev_bus/p"));
    assert_eq!(
        d.creation_target(absent(), pd(), true, true, Ok(s(" 2\n"))).unwrap(),
        "/r/sys/class/mdev_bus/p/mdev_supported_types/t/create"
    );
    let there = |p: &str, t: &str| Ok(MDevSysfsData { uuid: Uuid { value: U1 }, parent: s(p), mdev_type: s(t) });
    match d.creation_target(there("q", "t"), pd(), true, true, Ok(s("1"))) {
        Err(Error::DeviceExists(m)) => assert_eq!(m, format!("device {} found under different parent 'q'", U1_TEXT)),
        other => panic!("unexpected {:?}", other),
    }
    match d.creation_target(there("p", "u"), pd(), true, true, Ok(s("1"))) {
        Err(Error::DeviceExists(m)) => assert_eq!(m, format!("device {} found with different type 'u'", U1_TEXT)),
        other => panic!("unexpected {:?}", other),
    }
    match d.creation_target(there("p", "t"), pd(), true, true, Ok(s("1"))) {
        Err(Error::DeviceExists(m)) => assert_eq!(m, U1_TEXT),
        other => panic!("unexpected {:?}", other),
    }
    match d.creation_target(absent(), Err(Error::ParentNotFound(s("p"))), true, true, Ok(s("1"))) {
        Err(Error::ParentNotFound(m)) => assert_eq!(m, "p"),
        other => panic!("unexpected {:?}", other),
    }
    match d.creation_target(absent(), pd(), false, true, Ok(s("1"))) {
        Err(Error::Unsupported(m)) => assert_eq!(m, "parent p is not currently registered for mdev support"),
        other => panic!("unexpected {:?}", other),
    }
    match d.creation_target(absent(), pd(), true, false, Ok(s("1"))) {
        Err(Error::Unsupported(m)) => assert_eq!(m, "parent p does not support mdev type t"),
        other => panic!("unexpected {:?}", other),
    }
    match d.creation_target(absent(), pd(), true, true, Err(io(false, "x"))) {
        Err(Error::IOError(m, _)) => assert_eq!(m, "Failed to read number of available instances"),
        other => panic!("unexpected {:?}", other),
    }
    match d.creation_target(absent(), pd(), true, true, Ok(s("many"))) {
        Err(Error::System(m)) => assert_eq!(m, "Failed to parse available instances as a string: invalid digit found in string"),
        other => panic!("unexpected {:?}", other),
    }
    match d.creation_target(absent(), pd(), true, true, Ok(s("0\n"))) {
        Err(Error::InsufficientResources(m)) => assert_eq!(m, "No available instances of t on p"),
        other => panic!("unexpected {:?}", other),
    }
    let untyped = {
        let mut x = MDev::new(&env, Uuid { value: U1 });
        x.parent = Some(s("p"));
        x
    };
    assert!(matches!(untyped.creation_target(absent(), pd(), true, true, Ok(s("1"))), Err(Error::DeviceState(..))));
}

// ------------------------------------------------------------ text maps

#[test]
fn text_map_keeps_keys_in_order() {
    let mut m: TextMap<i32> = TextMap::new();
    assert!(m.is_empty());
    m.insert(s("b"), 2);
    m.insert(s("a"), 1);
    m.insert(s("c"), 3);
    m.insert(s("b"), 20);
    let keys: Vec<(String, i32)> = m.entries().clone();
    assert_eq!(keys, vec![(s("a"), 1), (s("b"), 20), (s("c"), 3)]);
    assert_eq!(m.take(&s("b")), Some(20));
    assert_eq!(m.take(&s("b")), None);
    assert_eq!(m.len(), 2);
    let mut g: TextMap<Vec<i32>> = TextMap::new();
    g.push_into(s("x"), 1);
    g.push_into(s("w"), 2);
    g.push_into(s("x"), 3);
    assert_eq!(g.into_entries(), vec![(s("w"), vec![2]), (s("x"), vec![1, 3])]);
}

// ------------------------------------------------------- supported types

fn type_entry(name: &str, avail: &str) -> Result<TypeEntry, IoError> {
    Ok(TypeEntry {
        file_name: s(name),
        utf8_name: true,
        is_dir: Ok(true),
        available_instances: Ok(s(avail)),
        device_api: Ok(s("vfio-pci\n")),
        name: None,
        description: None,
    })
}

fn parent_types(name: &str, types: Vec<Result<TypeEntry, IoError>>) -> Result<ParentTypesEntry, IoError> {
    Ok(ParentTypesEntry { file_name: s(name), utf8_name: true, types: Ok(types) })
}

#[test]
fn supported_types_per_parent_sorted() {
    let env = Environment::new(s("/r"), None);
    let mut described = type_entry("nvidia-11", "4\n").unwrap();
    described.name = Some(Ok(s(" GRID M60-0B \n")));
    described.description = Some(Ok(s("num_heads=2\nframe_rate_limiter=45\n")));
    let listing = vec![
        parent_types("0000:86:00.0", vec![type_entry("nvidia-36", "1"), Ok(described)]),
        parent_types("0000:00:02.0", vec![type_entry("i915-GVTg_V5_8", "2")]),
    ];
    let m = env.get_supported_types(None, Some(listing)).unwrap();
    let entries = m.into_entries();
    assert_eq!(entries.len(), 2);
    assert_eq!(entries[0].0, "0000:00:02.0");
    assert_eq!(entries[1].0, "0000:86:00.0");
    let names: Vec<&str> = entries[1].1.iter().map(|t| t.typename.as_str()).collect();
    assert_eq!(names, vec!["nvidia-11", "nvidia-36"]);
    let t = &entries[1].1[0];
    assert_eq!(t.parent, "0000:86:00.0");
    assert_eq!(t.available_instances, 4);
    assert_eq!(t.device_api, "vfio-pci");
    assert_eq!(t.name, "GRID M60-0B");
    assert_eq!(t.description, "num_heads=2, frame_rate_limiter=45");
}

#[test]
fn supported_types_filter_and_skips() {
    let env = Environment::new(s("/r"), None);
    let mut file = type_entry("notadir", "1").unwrap();
    file.is_dir = Ok(false);
    let listing = vec![
        parent_types("a", vec![type_entry("t1", "1"), Ok(file)]),
        parent_types("b", vec![type_entry("t2", "1")]),
        Ok(ParentTypesEntry { file_name: s("\u{fffd}"), utf8_name: false, types: Err(io(false, "x")) }),
    ];
    let m = env.get_supported_types(Some(s("a")), Some(listing)).unwrap();
    let entries = m.into_entries();
    assert_eq!(entries.len(), 1);
    assert_eq!(entries[0].1.len(), 1);
    assert!(env.get_supported_types(None, None).unwrap().is_empty());
}

#[test]
fn supported_types_errors() {
    let env = Environment::new(s("/r"), None);
    match env.get_supported_types(None, Some(vec![parent_types("a", vec![type_entry("t1", "x")])])) {
        Err(Error::System(m)) => assert_eq!(m, "Failed to parse available instances as a string: invalid digit found in string"),
        other => panic!("unexpected {:?}", other),
    }
    let mut unreadable = type_entry("t1", "1").unwrap();
    unreadable.device_api = Err(io(false, "x"));
    match env.get_supported_types(None, Some(vec![parent_types("a", vec![Ok(unreadable)])])) {
        Err(Error::IOError(m, _)) => assert_eq!(
            m,
            "Failed to read contents of \"/r/sys/class/mdev_bus/a/mdev_supported_types/t1/device_api\""
        ),
        other => panic!("unexpected {:?}", other),
    }
    let mut no_meta = type_entry("t1", "1").unwrap();
    no_meta.is_dir = Err(io(false, "x"));
    match env.get_supported_types(None, Some(vec![parent_types("a", vec![Ok(no_meta)])])) {
        Err(Error::IOError(m, _)) => assert_eq!(
            m,
            "Unable to determine file type for DirEntry(\"/r/sys/class/mdev_bus/a/mdev_supported_types/t1\")"
        ),
        other => panic!("unexpected {:?}", other),
    }
    let no_dir = Ok(ParentTypesEntry { file_name: s("a"), utf8_name: true, types: Err(io(true, "x")) });
    match env.get_supported_types(None, Some(vec![no_dir])) {
        Err(Error::IOError(m, e)) => {
            assert_eq!(m, "Failed to read directory \"/r/sys/class/mdev_bus/a/mdev_supported_types\"");
            assert!(e.not_found);
        }
        other => panic!("unexpected {:?}", other),
    }
    match env.get_supported_types(None, Some(vec![Err(io(false, "x"))])) {
        Err(Error::IOError(m, _)) => assert_eq!(m, "Failed to read entry from mdev parent device directory"),
        other => panic!("unexpected {:?}", other),
    }
}

// ------------------------------------------------------- defined devices

fn child(name: &str, contents: JsonFile, sysfs: Result<MDevSysfsData, Error>) -> Result<DefinedChildEntry, IoError> {
    Ok(DefinedChildEntry { file_name: s(name), utf8_name: true, is_file: Ok(true), contents, sysfs })
}

fn parent_dir(name: &str, children: Vec<Result<DefinedChildEntry, IoError>>) -> Result<DefinedParentEntry, IoError> {
    Ok(DefinedParentEntry { file_name: s(name), utf8_name: true, is_dir: Ok(true), children: Ok(children) })
}

fn defined_listing() -> Vec<Result<DefinedParentEntry, IoError>> {
    vec![
        parent_dir(
            "0000:00:02.0",
            vec![
                child(
                    U1_TEXT,
                    JsonFile::Read(render(&definition("i915-GVTg_V5_4", "auto"))),
                    Ok(MDevSysfsData { uuid: Uuid { value: U1 }, parent: s("0000:00:02.0"), mdev_type: s("i915-GVTg_V5_4") }),
                ),
                child("README", JsonFile::Read(s("ignored")), Err(Error::DeviceNotFound)),
            ],
        ),
        parent_dir("0000:00:03.0", vec![child(U2_TEXT, JsonFile::Read(render(&definition("t2", "manual"))), Err(Error::DeviceNotFound))]),
        parent_dir("empty", vec![]),
    ]
}

#[test]
fn defined_devices_grouped_by_parent() {
    let env = Environment::new(s("/r"), None);
    let m = env.get_defined_devices(None, None, Ok(defined_listing())).unwrap();
    let entries = m.into_entries();
    assert_eq!(entries.len(), 2);
    assert_eq!(entries[0].0, "0000:00:02.0");
    let d = &entries[0].1[0];
    assert_eq!(d.uuid.value, U1);
    assert!(d.active && d.autostart);
    assert_eq!(d.parent.as_deref(), Some("0000:00:02.0"));
    let d2 = &entries[1].1[0];
    assert!(!d2.active && !d2.autostart);
    assert_eq!(d2.mdev_type.as_deref(), Some("t2"));
}

#[test]
fn defined_device_lookup() {
    let env = Environment::new(s("/r"), None);
    let d = env.get_defined_device(Uuid { value: U2 }, None, Ok(defined_listing())).unwrap();
    assert_eq!(d.parent.as_deref(), Some("0000:00:03.0"));
    match env.get_defined_device(Uuid { value: 7 }, None, Ok(defined_listing())) {
        Err(Error::DeviceState(m, u, None)) => {
            assert_eq!(m, "device is not defined");
            assert_eq!(u.value, 7);
        }
        other => panic!("unexpected {:?}", other),
    }
    let twice = vec![
        parent_dir("a", vec![child(U1_TEXT, JsonFile::Read(render(&definition("t", "auto"))), Err(Error::DeviceNotFound))]),
        parent_dir("b", vec![child(U1_TEXT, JsonFile::Read(render(&definition("t", "auto"))), Err(Error::DeviceNotFound))]),
    ];
    match env.get_defined_device(Uuid { value: U1 }, None, Ok(twice)) {
        Err(Error::DeviceState(m, _, None)) => assert_eq!(m, "Multiple definitions found, specify a parent"),
        other => panic!("unexpected {:?}", other),
    }
    let p = s("a");
    let twice = vec![parent_dir("a", vec![child(U1_TEXT, JsonFile::Read(render(&definition("t", "auto"))), Err(Error::DeviceNotFound))])];
    assert!(env.get_defined_device(Uuid { value: U1 }, Some(&p), Ok(twice)).is_ok());
}

#[test]
fn defined_devices_errors_and_skips() {
    let env = Environment::new(s("/r"), None);
    match env.get_defined_devices(None, None, Err(io(true, "x"))) {
        Err(Error::IOError(m, _)) => assert_eq!(m, "Failed to read persistent device configuration directory"),
        other => panic!("unexpected {:?}", other),
    }
    let bad = vec![parent_dir("p", vec![child(U1_TEXT, JsonFile::Read(s("x")), Err(Error::DeviceNotFound))])];
    match env.get_defined_devices(None, None, Ok(bad)) {
        Err(Error::InvalidJSON(m)) => assert_eq!(m, "expected value at line 1 column 1"),
        other => panic!("unexpected {:?}", other),
    }
    let unread = vec![parent_dir("p", vec![child(U1_TEXT, JsonFile::Unread(io(false, "x")), Err(Error::DeviceNotFound))])];
    match env.get_defined_devices(None, None, Ok(unread)) {
        Err(Error::IOError(m, _)) => assert_eq!(m, format!("Failed to read contents of \"/r/etc/mdevctl.d/p/{}\"", U1_TEXT)),
        other => panic!("unexpected {:?}", other),
    }
    let format = vec![parent_dir("p", vec![child(U1_TEXT, JsonFile::Read(s("{}")), Err(Error::DeviceNotFound))])];
    assert!(matches!(env.get_defined_devices(None, None, Ok(format)), Err(Error::DeviceFormat(_))));
    let skipped = vec![
        parent_dir("p", vec![child(U1_TEXT, JsonFile::Unopened(io(false, "x")), Err(Error::DeviceNotFound))]),
        Ok(DefinedParentEntry { file_name: s("f"), utf8_name: true, is_dir: Ok(false), children: Err(io(false, "x")) }),
        Ok(DefinedParentEntry { file_name: s("g"), utf8_name: true, is_dir: Ok(true), children: Err(io(false, "x")) }),
    ];
    assert!(env.get_defined_devices(None, None, Ok(skipped)).unwrap().is_empty());
    match env.get_defined_devices(None, None, Ok(vec![Ok(DefinedParentEntry { file_name: s("f"), utf8_name: true, is_dir: Err(io(false, "x")), children: Ok(vec![]) })])) {
        Err(Error::IOError(m, _)) => assert_eq!(m, "Failed to read metadata for DirEntry(\"/r/etc/mdevctl.d/f\")"),
        other => panic!("unexpected {:?}", other),
    }
    let wanted = Uuid { value: U2 };
    let only = env.get_defined_devices(Some(&wanted), None, Ok(defined_listing())).unwrap().into_entries();
    assert_eq!(only.len(), 1);
    assert_eq!(only[0].1[0].uuid, wanted);
}

// -------------------------------------------------------- running devices

fn running(name: &str, parent: &str, t: &str, value: u128, definition_file: JsonFile) -> Result<ActiveEntry, IoError> {
    Ok(ActiveEntry {
        file_name: Some(s(name)),
        sysfs: Ok(MDevSysfsData { uuid: Uuid { value }, parent: s(parent), mdev_type: s(t) }),
        definition: definition_file,
    })
}

#[test]
fn running_devices_grouped_by_parent() {
    let env = Environment::new(s("/r"), None);
    let listing = vec![
        running(U2_TEXT, "p", "t", U2, JsonFile::Unopened(io(true, "x"))),
        running(U1_TEXT, "p", "t", U1, JsonFile::Read(render(&definition("t", "auto")))),
        Ok(ActiveEntry { file_name: Some(s("junk")), sysfs: Err(Error::DeviceNotFound), definition: JsonFile::Unopened(io(true, "x")) }),
        Ok(ActiveEntry { file_name: Some(s(U1_TEXT)), sysfs: Err(Error::DeviceNotFound), definition: JsonFile::Unopened(io(true, "x")) }),
    ];
    let m = env.get_active_devices(None, None, Some(listing)).unwrap().into_entries();
    assert_eq!(m.len(), 1);
    assert_eq!(m[0].0, "p");
    let devs = &m[0].1;
    assert_eq!(devs.len(), 3 - 1);
    assert_eq!(devs[0].uuid.value, U2);
    assert!(!devs[0].autostart);
    assert_eq!(devs[1].uuid.value, U1);
    assert!(devs[1].autostart && devs[1].active);
    assert!(env.get_active_devices(None, None, None).unwrap().is_empty());
    let bad_definition = vec![running(U1_TEXT, "p", "t", U1, JsonFile::Read(render(&obj(vec![
        ("attrs", JsonValue::Bool(true)),
        ("mdev_type", JsonValue::Str(s("t"))),
        ("start", JsonValue::Str(s("auto"))),
    ]))))];
    let m = env.get_active_devices(None, None, Some(bad_definition)).unwrap().into_entries();
    assert!(!m[0].1[0].autostart);
}

#[test]
fn running_device_lookup() {
    let env = Environment::new(s("/r"), None);
    let one = || Some(vec![running(U1_TEXT, "p", "t", U1, JsonFile::Unopened(io(true, "x")))]);
    let d = env.get_active_device(Uuid { value: U1 }, None, one()).unwrap();
    assert!(d.active);
    let q = s("q");
    match env.get_active_device(Uuid { value: U1 }, Some(&q), one()) {
        Err(Error::DeviceState(m, _, Some(p))) => {
            assert_eq!(m, "device is not active");
            assert_eq!(p, "q");
        }
        other => panic!("unexpected {:?}", other),
    }
    let two_parents = Some(vec![
        running(U1_TEXT, "p", "t", U1, JsonFile::Unopened(io(true, "x"))),
        running(U1_TEXT, "q", "t", U1, JsonFile::Unopened(io(true, "x"))),
    ]);
    match env.get_active_device(Uuid { value: U1 }, None, two_parents) {
        Err(Error::System(m)) => assert_eq!(m, format!("Multiple parents found for {}", U1_TEXT)),
        other => panic!("unexpected {:?}", other),
    }
    let twice = Some(vec![
        running(U1_TEXT, "p", "t", U1, JsonFile::Unopened(io(true, "x"))),
        running(U1_TEXT, "p", "t", U1, JsonFile::Unopened(io(true, "x"))),
    ]);
    match env.get_active_device(Uuid { value: U1 }, None, twice) {
        Err(Error::System(m)) => assert_eq!(m, format!("Multiple devices found for p/{}", U1_TEXT)),
        other => panic!("unexpected {:?}", other),
    }
}

#[test]
fn running_devices_errors() {
    let env = Environment::new(s("/r"), None);
    match env.get_active_devices(None, None, Some(vec![Err(io(false, "x"))])) {
        Err(Error::IOError(m, _)) => assert_eq!(m, "Failed to read directory entry"),
        other => panic!("unexpected {:?}", other),
    }
    let not_utf8 = Ok(ActiveEntry { file_name: None, sysfs: Err(Error::DeviceNotFound), definition: JsonFile::Unopened(io(true, "x")) });
    match env.get_active_devices(None, None, Some(vec![not_utf8])) {
        Err(Error::System(m)) => assert_eq!(m, "filename is not valid utf8"),
        other => panic!("unexpected {:?}", other),
    }
}

#[test]
fn one_parent_is_its_part_of_all() {
    let env = Environment::new(s("/r"), None);
    let listing = || {
        vec![
            parent_types("0000:86:00.0", vec![type_entry("nvidia-36", "1"), type_entry("nvidia-11", "3")]),
            parent_types("0000:00:02.0", vec![type_entry("i915-GVTg_V5_8", "2")]),
        ]
    };
    let all = env.get_supported_types(None, Some(listing())).unwrap().into_entries();
    let one = env.get_supported_types(Some(s("0000:86:00.0")), Some(listing())).unwrap().into_entries();
    assert_eq!(one.len(), 1);
    assert_eq!(one[0].0, all[1].0);
    let names = |ts: &Vec<mdevctl::device_type::MDevType>| ts.iter().map(|t| t.typename.clone()).collect::<Vec<_>>();
    assert_eq!(names(&one[0].1), names(&all[1].1));
    assert!(env.get_supported_types(Some(s("absent")), Some(listing())).unwrap().into_entries().is_empty());
}
