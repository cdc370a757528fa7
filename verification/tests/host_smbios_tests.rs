use host_smbios::extract_json_string;
use host_smbios::parse_uuid_string;

#[test]
fn test_parse_uuid_string() {
    let uuid = parse_uuid_string("12345678-1234-5678-1234-567812345678");
    assert!(uuid.is_some());
    let bytes = uuid.unwrap();
    assert_eq!(bytes[0], 0x12);
    assert_eq!(bytes[1], 0x34);
}

#[test]
fn test_parse_uuid_string_invalid() {
    assert!(parse_uuid_string("not-a-uuid").is_none());
    assert!(parse_uuid_string("").is_none());
}

#[test]
fn test_extract_json_string() {
    let json = r#"{"Manufacturer": "Framework", "Model": "Laptop 16"}"#;
    assert_eq!(extract_json_string(json, "Manufacturer"), Some("Framework".to_string()));
    assert_eq!(extract_json_string(json, "Model"), Some("Laptop 16".to_string()));
    assert_eq!(extract_json_string(json, "NotPresent"), None);
}

#[test]
fn test_extract_json_string_null() {
    let json = r#"{"Field": null}"#;
    assert_eq!(extract_json_string(json, "Field"), None);
}

#[test]
fn test_extract_json_string_escaped() {
    let json = r#"{"Name": "Test \"Quoted\" Value"}"#;
    assert_eq!(extract_json_string(json, "Name"), Some("Test \"Quoted\" Value".to_string()));
}
