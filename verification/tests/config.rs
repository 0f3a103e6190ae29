use mqtt::config::{parse_settings, setting};

const SETTINGS: &str = "{\n    \"address\": \"127.0.0.1:5000\",\n    \"key\": \"01234567890123456789012345678901\",\n\n    \"segs_to_backup\": 10\n}\n";

#[test]
fn test_parse_settings() {
    let entries = parse_settings(SETTINGS).unwrap();
    assert_eq!(
        entries,
        vec![
            ("address".to_string(), "127.0.0.1:5000".to_string()),
            ("key".to_string(), "01234567890123456789012345678901".to_string()),
            ("segs_to_backup".to_string(), "10".to_string()),
        ]
    );
}

#[test]
fn test_setting_lookup() {
    let entries = parse_settings(SETTINGS).unwrap();
    assert_eq!(setting(&entries, "address"), Some("127.0.0.1:5000".to_string()));
    assert_eq!(setting(&entries, "segs_to_backup"), Some("10".to_string()));
    assert_eq!(setting(&entries, "missing"), None);
}

#[test]
fn test_later_setting_overrides() {
    let entries = parse_settings("a: 1\na: 2\r\n").unwrap();
    assert_eq!(setting(&entries, "a"), Some("2".to_string()));
}

#[test]
fn test_settings_trim_unicode_white_space() {
    let entries = parse_settings("\u{3000}\"id\"\u{00A0}:\t\"drone\",\u{2003}").unwrap();
    assert_eq!(entries, vec![("id\"".to_string(), "drone".to_string())]);
}

#[test]
fn test_settings_line_without_colon() {
    assert_eq!(parse_settings("{\n\"address\" \"x\"\n}"), None);
    assert_eq!(parse_settings("{\n}"), Some(vec![]));
}

use mqtt::config::parse_camera_settings;

fn pair(key: &str, value: &str) -> (String, String) {
    (key.to_string(), value.to_string())
}

#[test]
fn test_parse_camera_settings() {
    let contents = "{\n  \"address\": \"127.0.0.1:5000\",\n  \"id\": \"camera-system\",\n  \"cameras\": [\n    {\n      \"x_coordinate\": 1.5,\n      \"y_coordinate\": 2.0\n    },\n    {\n      \"x_coordinate\": 3,\n      \"y_coordinate\": 4\n    }\n  ],\n  \"key\": \"abc\"\n}\n";
    let (entries, cameras) = parse_camera_settings(contents).unwrap();
    assert_eq!(entries, vec![pair("address", "127.0.0.1:5000"), pair("id", "camera-system")]);
    assert_eq!(
        cameras,
        vec![
            vec![pair("x_coordinate", "1.5"), pair("y_coordinate", "2.0")],
            vec![pair("x_coordinate", "3"), pair("y_coordinate", "4")],
        ]
    );
}

#[test]
fn test_parse_camera_settings_line_without_colon() {
    assert_eq!(parse_camera_settings("{\n\"address\" \"x\"\n}"), None);
}
