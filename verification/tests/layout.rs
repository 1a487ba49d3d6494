use mdevctl::active::ActiveEntry;
use mdevctl::json::JsonFile;
use mdevctl::device_uuid::Uuid;
use mdevctl::error::IoError;
use mdevctl::mdev::MDevSysfsData;
use mdevctl::environment::Environment;
use mdevctl::error::{format_dev, Error};
use mdevctl::text::{
    decimal_text, i32_text, parse_i32, path_join, replace_newlines, text_lt, trim, IntParseError,
};

fn env(root: &str) -> Environment {
    Environment::new(root.to_string(), None)
}

#[test]
fn base_directories_sit_under_the_root() {
    let e = env("/tmp/root");
    assert_eq!(e.root(), "/tmp/root");
    assert_eq!(e.mdev_base(), "/tmp/root/sys/bus/mdev/devices");
    assert_eq!(e.config_base(), "/tmp/root/etc/mdevctl.d");
    assert_eq!(e.parent_base(), "/tmp/root/sys/class/mdev_bus");
    assert_eq!(e.config_scripts_base(), "/tmp/root/etc/mdevctl.d/scripts.d");
    assert_eq!(e.scripts_base(), "/tmp/root/usr/lib/mdevctl/scripts.d");
    assert_eq!(e.callout_dir(), "/tmp/root/usr/lib/mdevctl/scripts.d/callouts");
    assert_eq!(e.old_callout_dir(), "/tmp/root/etc/mdevctl.d/scripts.d/callouts");
    assert_eq!(e.notification_dir(), "/tmp/root/usr/lib/mdevctl/scripts.d/notifiers");
    assert_eq!(e.old_notification_dir(), "/tmp/root/etc/mdevctl.d/scripts.d/notifiers");
}

#[test]
fn directory_lists_put_the_current_one_first() {
    let e = env("/");
    assert_eq!(
        e.callout_dirs(),
        vec![
            "/usr/lib/mdevctl/scripts.d/callouts".to_string(),
            "/etc/mdevctl.d/scripts.d/callouts".to_string()
        ]
    );
    assert_eq!(
        e.notification_dirs(),
        vec![
            "/usr/lib/mdevctl/scripts.d/notifiers".to_string(),
            "/etc/mdevctl.d/scripts.d/notifiers".to_string()
        ]
    );
}

#[test]
fn root_override_wins() {
    let e = Environment::new("/a".to_string(), Some("/b".to_string()));
    assert_eq!(e.root(), "/b");
    assert_eq!(e.config_base(), "/b/etc/mdevctl.d");
}

#[test]
fn empty_and_slash_terminated_roots() {
    assert_eq!(env("").mdev_base(), "sys/bus/mdev/devices");
    assert_eq!(env("/r/").mdev_base(), "/r/sys/bus/mdev/devices");
}

#[test]
fn joining_paths_like_path_join() {
    assert_eq!(path_join("a", "b"), "a/b");
    assert_eq!(path_join("a/", "b"), "a/b");
    assert_eq!(path_join("a", "/b"), "/b");
    assert_eq!(path_join("", "b"), "b");
    assert_eq!(path_join("a", ""), "a/");
    for (base, part) in [("x/y", "z"), ("/", "q"), ("a", "/abs"), ("", "")] {
        let expected = std::path::Path::new(base).join(part);
        assert_eq!(path_join(base, part), expected.to_str().unwrap());
    }
}

#[test]
fn self_check_reports_the_first_missing_directory() {
    let e = env("/r");
    assert!(e.self_check(&vec![true, true, true]).is_ok());
    assert_eq!(e.required_dirs().len(), 3);
    match e.self_check(&vec![true, false, false]) {
        Err(Error::System(m)) => assert_eq!(
            m,
            "Required directory \"/r/usr/lib/mdevctl/scripts.d/callouts\" doesn't exist. This may indicate a packaging or installation error"
        ),
        other => panic!("unexpected {:?}", other),
    }
    match e.self_check(&vec![]) {
        Err(Error::System(m)) => assert!(m.contains("/r/etc/mdevctl.d\"")),
        other => panic!("unexpected {:?}", other),
    }
}

#[test]
fn uuid_text_is_lower_case_hyphenated() {
    let u = Uuid { value: 0xa1a2a3a4b1b2c1c2d1d2d3d4d5d6d7d8 };
    assert_eq!(format_dev(&u, None), "a1a2a3a4-b1b2-c1c2-d1d2-d3d4d5d6d7d8");
    let z = Uuid { value: 0 };
    assert_eq!(format_dev(&z, None), "00000000-0000-0000-0000-000000000000");
    let e = env("/r");
    assert_eq!(
        MDevSysfsData::active_path(&e, &u),
        "/r/sys/bus/mdev/devices/a1a2a3a4-b1b2-c1c2-d1d2-d3d4d5d6d7d8"
    );
}

fn running_entry(name: &str, value: u128) -> Result<ActiveEntry, IoError> {
    Ok(ActiveEntry {
        file_name: Some(name.to_string()),
        sysfs: Ok(MDevSysfsData { uuid: Uuid { value }, parent: "p".to_string(), mdev_type: "t".to_string() }),
        definition: JsonFile::Unopened(IoError { not_found: true, message: String::new() }),
    })
}

#[test]
fn device_names_are_parsed_as_uuids() {
    let e = env("/r");
    let v: u128 = 0x976d8cc2_4bfc_43b9_b9f9_f4af2de91ab9;
    let listing = vec![
        running_entry("976d8cc2-4bfc-43b9-b9f9-f4af2de91ab9", v),
        running_entry("976D8CC2-4BFC-43B9-B9F9-F4AF2DE91AB9", v),
        running_entry("{976d8cc2-4bfc-43b9-b9f9-f4af2de91ab9}", v),
        running_entry("976d8cc24bfc43b9b9f9f4af2de91ab9", v),
        running_entry("urn:uuid:976d8cc2-4bfc-43b9-b9f9-f4af2de91ab9", v),
        running_entry("not-a-uuid", v),
        running_entry("", v),
    ];
    let m = e.get_active_devices(None, None, Some(listing)).unwrap().into_entries();
    assert_eq!(m.len(), 1);
    assert_eq!(m[0].1.len(), 5);
    assert!(m[0].1.iter().all(|d| d.uuid.value == v));
}

#[test]
fn device_label_with_and_without_parent() {
    let u = Uuid { value: 1 };
    assert_eq!(format_dev(&u, None), "00000000-0000-0000-0000-000000000001");
    let p = "0000:00:02.0".to_string();
    assert_eq!(format_dev(&u, Some(&p)), "0000:00:02.0/00000000-0000-0000-0000-000000000001");
}

#[test]
fn parsing_integers_like_from_str() {
    assert_eq!(parse_i32("0"), Ok(0));
    assert_eq!(parse_i32("42"), Ok(42));
    assert_eq!(parse_i32("+7"), Ok(7));
    assert_eq!(parse_i32("-12"), Ok(-12));
    assert_eq!(parse_i32("2147483647"), Ok(i32::MAX));
    assert_eq!(parse_i32("-2147483648"), Ok(i32::MIN));
    assert_eq!(parse_i32(""), Err(IntParseError::Empty));
    assert_eq!(parse_i32("+"), Err(IntParseError::InvalidDigit));
    assert_eq!(parse_i32("-"), Err(IntParseError::InvalidDigit));
    assert_eq!(parse_i32("1a"), Err(IntParseError::InvalidDigit));
    assert_eq!(parse_i32(" 1"), Err(IntParseError::InvalidDigit));
    assert_eq!(parse_i32("2147483648"), Err(IntParseError::PosOverflow));
    assert_eq!(parse_i32("-2147483649"), Err(IntParseError::NegOverflow));
    assert_eq!(parse_i32("99999999999x"), Err(IntParseError::PosOverflow));
    for s in ["", "+", "-", "1a", "2147483648", "-2147483649", "0012", "-0"] {
        let ours = parse_i32(s).map_err(|e| e.message());
        let std = s.parse::<i32>().map_err(|e| e.to_string());
        assert_eq!(ours, std, "for {:?}", s);
    }
}

#[test]
fn trimming_like_str_trim() {
    for s in ["  a b \n", "\t\u{3000}x\u{85}", "", "   ", "abc", "\u{a0}\u{2007}y z\u{2029}"] {
        assert_eq!(trim(s), s.trim(), "for {:?}", s);
    }
}

#[test]
fn line_breaks_become_commas() {
    assert_eq!(replace_newlines("a\nb\n"), "a, b, ");
    assert_eq!(replace_newlines("none"), "none");
}

#[test]
fn decimal_texts() {
    assert_eq!(decimal_text(0), "0");
    assert_eq!(decimal_text(1234567890), "1234567890");
    assert_eq!(i32_text(-45), "-45");
    assert_eq!(i32_text(i32::MIN), "-2147483648");
    assert_eq!(i32_text(i32::MAX), "2147483647");
}

#[test]
fn text_order_is_str_order() {
    let words = ["", "a", "ab", "b", "B", "é", "a\u{10000}", "nvidia-35", "nvidia-36", "i915-GVTg_V5_4"];
    for x in words {
        for y in words {
            assert_eq!(text_lt(x, y), x < y, "{:?} < {:?}", x, y);
        }
    }
}
