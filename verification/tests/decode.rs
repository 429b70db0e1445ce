use cargo_watch::strmap::StrMap;
use cargo_watch::udisks::{
    get_drive_info, get_mount_points, get_object_path_prop, get_string_prop,
};
use cargo_watch::value::{decode_bytes, DecodeError, Value};

fn bytes(text: &[u8]) -> Value {
    Value::Array(text.iter().map(|b| Value::Byte(*b)).collect())
}

fn props(entries: Vec<(&str, Value)>) -> StrMap<Value> {
    let mut map = StrMap::new();
    for (key, value) in entries {
        map.insert(key.to_string(), value);
    }
    map
}

#[test]
fn decode_strips_one_trailing_nul() {
    assert_eq!(decode_bytes(b"/mnt/data\0").unwrap(), "/mnt/data");
    assert_eq!(decode_bytes(b"/\0").unwrap(), "/");
    assert_eq!(decode_bytes(b"\0").unwrap(), "");
}

#[test]
fn decode_strips_no_more_than_one_nul() {
    assert_eq!(decode_bytes(b"/mnt/data\0\0").unwrap(), "/mnt/data\0");
    assert_eq!(decode_bytes(b"\0\0").unwrap(), "\0");
}

#[test]
fn decode_leaves_bytes_without_nul_whole() {
    assert_eq!(decode_bytes(b"/mnt/data").unwrap(), "/mnt/data");
    assert_eq!(decode_bytes(b"").unwrap(), "");
    assert_eq!(decode_bytes(b"a\0b").unwrap(), "a\0b");
}

#[test]
fn decode_reads_utf8() {
    assert_eq!(decode_bytes("/mnt/données\0".as_bytes()).unwrap(), "/mnt/données");
    assert_eq!(decode_bytes("/媒体/盘".as_bytes()).unwrap(), "/媒体/盘");
    assert_eq!(decode_bytes(&[0xf0, 0x9f, 0x92, 0xbe, 0]).unwrap(), "💾");
}

#[test]
fn decode_rejects_what_is_not_utf8() {
    assert_eq!(decode_bytes(&[b'/', 0xff, 0]), Err(DecodeError::InvalidUtf8));
    assert_eq!(decode_bytes(&[0xc3]), Err(DecodeError::InvalidUtf8));
    assert_eq!(decode_bytes(&[0xc3, 0]), Err(DecodeError::InvalidUtf8));
    assert_eq!(decode_bytes(&[0xed, 0xa0, 0x80]), Err(DecodeError::InvalidUtf8));
    assert_eq!(decode_bytes(&[0xc0, 0xaf]), Err(DecodeError::InvalidUtf8));
    assert_eq!(decode_bytes(&[b'a', 0x80, b'b', 0]), Err(DecodeError::InvalidUtf8));
}

#[test]
fn value_shapes() {
    assert_eq!(bytes(b"ab").as_bytes(), Some(vec![b'a', b'b']));
    assert_eq!(Value::Array(Vec::new()).as_bytes(), Some(Vec::new()));
    assert_eq!(Value::Array(vec![Value::Byte(1), Value::Bool(true)]).as_bytes(), None);
    assert_eq!(Value::Array(vec![bytes(b"a")]).as_bytes(), None);
    assert_eq!(Value::Str("ab".to_string()).as_bytes(), None);
    assert_eq!(Value::Byte(7).as_bytes(), None);

    assert_eq!(Value::Str("ext4".to_string()).as_str(), Some(&"ext4".to_string()));
    assert_eq!(Value::ObjectPath("/o".to_string()).as_str(), None);
    assert_eq!(bytes(b"ext4").as_str(), None);

    assert_eq!(Value::Bool(true).as_bool(), Some(true));
    assert_eq!(Value::Bool(false).as_bool(), Some(false));
    assert_eq!(Value::Byte(1).as_bool(), None);
    assert_eq!(Value::Other.as_bool(), None);

    assert_eq!(Value::ObjectPath("/o".to_string()).as_object_path(), Some(&"/o".to_string()));
    assert_eq!(Value::Str("/o".to_string()).as_object_path(), None);
}

#[test]
fn mount_points_are_decoded_in_order() {
    let fs = props(vec![(
        "MountPoints",
        Value::Array(vec![bytes(b"/\0"), bytes(b"/home\0"), bytes(b"/var")]),
    )]);
    assert_eq!(get_mount_points(&fs), vec!["/", "/home", "/var"]);
}

#[test]
fn mount_points_that_fail_are_dropped_alone() {
    let fs = props(vec![(
        "MountPoints",
        Value::Array(vec![
            bytes(b"/a\0"),
            bytes(&[b'/', 0xff, 0]),
            Value::Str("/s".to_string()),
            Value::Array(vec![Value::Byte(b'/'), Value::Bool(true)]),
            Value::Other,
            bytes(b"/b\0"),
        ]),
    )]);
    assert_eq!(get_mount_points(&fs), vec!["/a", "/b"]);
}

#[test]
fn mount_points_absent_or_misshapen() {
    assert!(get_mount_points(&props(vec![])).is_empty());
    assert!(get_mount_points(&props(vec![("MountPoints", Value::Array(vec![]))])).is_empty());
    assert!(get_mount_points(&props(vec![("MountPoints", Value::Str("/".to_string()))])).is_empty());
    assert!(get_mount_points(&props(vec![("MountPoints", Value::Other)])).is_empty());
    // an array of bytes is no array of byte sequences
    assert!(get_mount_points(&props(vec![("MountPoints", bytes(b"/\0"))])).is_empty());
    assert!(get_mount_points(&props(vec![("Other", Value::Array(vec![bytes(b"/\0")]))])).is_empty());
}

#[test]
fn string_prop_reads_plain_strings() {
    let block = props(vec![
        ("IdLabel", Value::Str("Data".to_string())),
        ("IdType", Value::Str("ext4".to_string())),
        ("Empty", Value::Str(String::new())),
    ]);
    assert_eq!(get_string_prop(&block, "IdLabel").unwrap(), "Data");
    assert_eq!(get_string_prop(&block, "IdType").unwrap(), "ext4");
    assert_eq!(get_string_prop(&block, "Empty").unwrap(), "");
}

#[test]
fn string_prop_reads_device_bytes() {
    let block = props(vec![("Device", bytes(b"/dev/sda1\0"))]);
    assert_eq!(get_string_prop(&block, "Device").unwrap(), "/dev/sda1");
    let bare = props(vec![("Device", bytes(b"/dev/sda1"))]);
    assert_eq!(get_string_prop(&bare, "Device").unwrap(), "/dev/sda1");
    let plain = props(vec![("Device", Value::Str("/dev/sdb".to_string()))]);
    assert_eq!(get_string_prop(&plain, "Device").unwrap(), "/dev/sdb");
}

#[test]
fn string_prop_errors() {
    let block = props(vec![
        ("Device", bytes(&[b'/', 0xfe, 0])),
        ("IdLabel", bytes(b"Data\0")),
        ("IdType", Value::Bool(true)),
        ("Drive", Value::ObjectPath("/d".to_string())),
    ]);
    assert_eq!(get_string_prop(&block, "Missing"), Err(DecodeError::Missing));
    assert_eq!(get_string_prop(&block, "Device"), Err(DecodeError::InvalidUtf8));
    // only the device comes as bytes
    assert_eq!(get_string_prop(&block, "IdLabel"), Err(DecodeError::NotAString));
    assert_eq!(get_string_prop(&block, "IdType"), Err(DecodeError::NotAString));
    assert_eq!(get_string_prop(&block, "Drive"), Err(DecodeError::NotAString));
    let odd = props(vec![("Device", Value::Array(vec![Value::Bool(true)]))]);
    assert_eq!(get_string_prop(&odd, "Device"), Err(DecodeError::NotAString));
}

#[test]
fn object_path_prop_reads_references() {
    let block = props(vec![
        ("Drive", Value::ObjectPath("/org/freedesktop/UDisks2/drives/d1".to_string())),
        ("IdType", Value::Str("/org".to_string())),
    ]);
    assert_eq!(
        get_object_path_prop(&block, "Drive").unwrap(),
        "/org/freedesktop/UDisks2/drives/d1"
    );
    assert_eq!(get_object_path_prop(&block, "IdType"), Err(DecodeError::NotAnObjectPath));
    assert_eq!(get_object_path_prop(&block, "Nothing"), Err(DecodeError::Missing));
}

fn drive_object(entries: Vec<(&str, Value)>) -> StrMap<StrMap<Value>> {
    let mut interfaces = StrMap::new();
    interfaces.insert("org.freedesktop.UDisks2.Drive".to_string(), props(entries));
    interfaces
}

#[test]
fn drive_info_reads_model_and_removable() {
    let mut objects = StrMap::new();
    objects.insert(
        "/d1".to_string(),
        drive_object(vec![
            ("Model", Value::Str("Samsung SSD".to_string())),
            ("Removable", Value::Bool(true)),
        ]),
    );
    objects.insert("/d2".to_string(), drive_object(vec![("Model", Value::Str(String::new()))]));
    objects.insert(
        "/d3".to_string(),
        drive_object(vec![("Model", Value::Bool(true)), ("Removable", Value::Str("yes".to_string()))]),
    );
    objects.insert(
        "/d4".to_string(),
        drive_object(vec![("Removable", Value::Bool(false)), ("Model", bytes(b"X\0"))]),
    );
    assert_eq!(get_drive_info(&objects, "/d1"), Ok((Some("Samsung SSD".to_string()), true)));
    assert_eq!(get_drive_info(&objects, "/d2"), Ok((None, false)));
    assert_eq!(get_drive_info(&objects, "/d3"), Ok((None, false)));
    assert_eq!(get_drive_info(&objects, "/d4"), Ok((None, false)));
}

#[test]
fn drive_info_errors() {
    let mut objects = StrMap::new();
    let mut other = StrMap::new();
    other.insert("org.freedesktop.UDisks2.Block".to_string(), props(vec![]));
    objects.insert("/b".to_string(), other);
    assert_eq!(get_drive_info(&objects, "/nowhere"), Err(DecodeError::ObjectNotFound));
    assert_eq!(get_drive_info(&objects, "/b"), Err(DecodeError::NoSuchInterface));
}
