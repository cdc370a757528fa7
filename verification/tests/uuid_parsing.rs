use host_smbios::parse_uuid_string;

#[test]
fn all_bytes_of_a_canonical_uuid() {
    let bytes = parse_uuid_string("00112233-4455-6677-8899-aabbccddeeff").unwrap();
    assert_eq!(
        bytes,
        [0x00, 0x11, 0x22, 0x33, 0x44, 0x55, 0x66, 0x77, 0x88, 0x99, 0xaa, 0xbb, 0xcc, 0xdd, 0xee, 0xff]
    );
}

#[test]
fn upper_case_digits_parse_the_same() {
    assert_eq!(
        parse_uuid_string("4C4C4544-0031-3510-8052-B2C04F4A4E32"),
        parse_uuid_string("4c4c4544-0031-3510-8052-b2c04f4a4e32")
    );
    let bytes = parse_uuid_string("4C4C4544-0031-3510-8052-B2C04F4A4E32").unwrap();
    assert_eq!(bytes[0], 0x4c);
    assert_eq!(bytes[15], 0x32);
}

#[test]
fn separators_and_braces_are_skipped() {
    assert_eq!(
        parse_uuid_string("{12345678123456781234567812345678}\n"),
        parse_uuid_string("12345678-1234-5678-1234-567812345678")
    );
}

#[test]
fn wrong_number_of_digits_is_none() {
    assert!(parse_uuid_string("12345678-1234-5678-1234-56781234567").is_none());
    assert!(parse_uuid_string("12345678-1234-5678-1234-5678123456789").is_none());
}

fn canonical_text(bytes: &[u8; 16], upper: bool) -> String {
    let hex: Vec<String> = bytes
        .iter()
        .map(|b| if upper { format!("{:02X}", b) } else { format!("{:02x}", b) })
        .collect();
    format!(
        "{}-{}-{}-{}-{}",
        hex[0..4].concat(),
        hex[4..6].concat(),
        hex[6..8].concat(),
        hex[8..10].concat(),
        hex[10..16].concat()
    )
}

#[test]
fn canonical_text_parses_back() {
    let bytes = [0xde, 0xad, 0xbe, 0xef, 0x00, 0x01, 0x7f, 0x80, 0xff, 0x10, 0x20, 0x30, 0x40, 0x50, 0x60, 0x09];
    assert_eq!(parse_uuid_string(&canonical_text(&bytes, false)), Some(bytes));
    assert_eq!(parse_uuid_string(&canonical_text(&bytes, true)), Some(bytes));
}
