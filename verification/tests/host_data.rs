use host_smbios::{
    parse_baseboard_json, parse_bios_json, parse_computer_system_json,
    parse_computer_system_product_json, parse_processor_json, parse_system_enclosure_json,
    dmidecode_value_of, processor_info_from_cpuinfo, DmiReadings, DmiSource, HostReadings, HostSmbiosData, QueryError,
    WmiOutputs,
};

fn some(s: &str) -> Option<String> {
    Some(s.to_string())
}

#[test]
fn default_is_empty() {
    let d = HostSmbiosData::default();
    assert_eq!(d.system_manufacturer, "");
    assert_eq!(d.processor_version, "");
    assert!(d.system_uuid.is_none());
}

#[test]
fn computer_system_sets_only_its_fields() {
    let mut d = HostSmbiosData::default();
    d.bios_vendor = "kept".to_string();
    d.system_family = "old family".to_string();
    parse_computer_system_json(
        r#"{"Manufacturer": "Framework", "Model": "Laptop 16", "SystemFamily": null, "SystemSKUNumber": "FRANMZCP09"}"#,
        &mut d,
    );
    assert_eq!(d.system_manufacturer, "Framework");
    assert_eq!(d.system_product_name, "Laptop 16");
    assert_eq!(d.system_family, "old family");
    assert_eq!(d.system_sku_number, "FRANMZCP09");
    assert_eq!(d.bios_vendor, "kept");
}

#[test]
fn product_sets_serial_version_and_uuid() {
    let mut d = HostSmbiosData::default();
    parse_computer_system_product_json(
        r#"{"UUID": "12345678-1234-5678-1234-567812345678", "Vendor": "V", "Version": "A6", "IdentifyingNumber": "SN1"}"#,
        &mut d,
    );
    assert_eq!(d.system_serial_number, "SN1");
    assert_eq!(d.system_version, "A6");
    assert_eq!(d.system_uuid.unwrap()[15], 0x78);
}

#[test]
fn product_uuid_that_does_not_parse_clears_uuid() {
    let mut d = HostSmbiosData::default();
    d.system_uuid = Some([1; 16]);
    parse_computer_system_product_json(r#"{"UUID": "none"}"#, &mut d);
    assert!(d.system_uuid.is_none());
}

#[test]
fn other_windows_parsers() {
    let mut d = HostSmbiosData::default();
    parse_baseboard_json(r#"{"Manufacturer": "M", "Product": "P", "SerialNumber": "S"}"#, &mut d);
    parse_system_enclosure_json(
        r#"{"Manufacturer": "CM", "SerialNumber": "CS", "SMBIOSAssetTag": "AT"}"#,
        &mut d,
    );
    parse_bios_json(r#"{"Manufacturer": "BV", "SMBIOSBIOSVersion": "3.05", "SerialNumber": "x"}"#, &mut d);
    parse_processor_json(r#"{"Manufacturer": "AuthenticAMD", "Name": "AMD Ryzen 7"}"#, &mut d);
    assert_eq!(d.baseboard_manufacturer, "M");
    assert_eq!(d.baseboard_product, "P");
    assert_eq!(d.baseboard_serial_number, "S");
    assert_eq!(d.chassis_manufacturer, "CM");
    assert_eq!(d.chassis_serial_number, "CS");
    assert_eq!(d.chassis_asset_tag, "AT");
    assert_eq!(d.bios_vendor, "BV");
    assert_eq!(d.bios_version, "3.05");
    assert_eq!(d.processor_manufacturer, "AuthenticAMD");
    assert_eq!(d.processor_version, "AMD Ryzen 7");
    assert_eq!(d.system_serial_number, "");
}

#[test]
fn cpuinfo_model_name() {
    let cpuinfo = "processor\t: 0\nvendor_id\t: GenuineIntel\nmodel name\t: Intel(R) Core(TM) i7  \r\nmodel name\t: second\n";
    assert_eq!(processor_info_from_cpuinfo(cpuinfo), "Intel(R) Core(TM) i7");
}

#[test]
fn cpuinfo_line_without_colon_is_passed_over() {
    assert_eq!(processor_info_from_cpuinfo("model name\nmodel name: x: y\n"), "x: y");
}

#[test]
fn cpuinfo_without_model_name_is_empty() {
    assert_eq!(processor_info_from_cpuinfo("processor : 0\n"), "");
    assert_eq!(processor_info_from_cpuinfo(""), "");
}

#[test]
fn unsupported_host_has_no_query() {
    assert_eq!(
        HostSmbiosData::query(&HostReadings::Unsupported).err(),
        Some(QueryError::UnsupportedPlatform)
    );
}

fn file(s: &str) -> DmiSource {
    DmiSource { file: some(s), dmidecode: None }
}

fn unread() -> DmiSource {
    DmiSource { file: None, dmidecode: None }
}

fn dmi_readings() -> DmiReadings {
    DmiReadings {
        product_serial: file("  PF12345\n"),
        sys_vendor: file("LENOVO\n"),
        product_name: file("21CB\n"),
        product_version: file("ThinkPad X1\n"),
        product_sku: unread(),
        product_family: file("ThinkPad\n"),
        product_uuid: file("4c4c4544-0031-3510-8052-b2c04f4a4e32\n"),
        board_serial: file("L1HF\n"),
        board_vendor: file("LENOVO\n"),
        board_name: file("21CBCTO1WW\n"),
        chassis_serial: unread(),
        chassis_asset_tag: file("No Asset Information\n"),
        chassis_vendor: file("LENOVO\n"),
        bios_vendor: file("LENOVO\n"),
        bios_version: file("N3AET72W (1.37 )\n"),
        processor_manufacturer: None,
        cpuinfo: some("processor\t: 0\nmodel name\t: 12th Gen Intel(R) Core(TM) i7-1260P\n"),
    }
}

#[test]
fn linux_readings_are_trimmed() {
    let d = HostSmbiosData::query(&HostReadings::Linux(dmi_readings())).unwrap();
    assert_eq!(d.system_serial_number, "PF12345");
    assert_eq!(d.system_manufacturer, "LENOVO");
    assert_eq!(d.system_sku_number, "");
    assert_eq!(d.chassis_serial_number, "");
    assert_eq!(d.bios_version, "N3AET72W (1.37 )");
    assert_eq!(d.processor_manufacturer, "");
    assert_eq!(d.processor_version, "12th Gen Intel(R) Core(TM) i7-1260P");
    assert_eq!(d.system_uuid.unwrap()[0], 0x4c);
}

#[test]
fn linux_falls_back_to_dmidecode_where_a_file_was_not_read() {
    let mut r = dmi_readings();
    r.product_serial =
        DmiSource { file: None, dmidecode: some("# SMBIOS entry point at 0x000f0000\nPF99999  \n") };
    r.product_uuid =
        DmiSource { file: None, dmidecode: some("12345678-1234-5678-1234-567812345678\n") };
    r.sys_vendor = DmiSource { file: some("FILE\n"), dmidecode: some("DMIDECODE\n") };
    r.processor_manufacturer = some("Intel(R) Corporation\nIntel(R) Corporation\n");
    let d = HostSmbiosData::query(&HostReadings::Linux(r)).unwrap();
    assert_eq!(d.system_serial_number, "PF99999");
    assert_eq!(d.system_uuid.unwrap()[0], 0x12);
    assert_eq!(d.system_manufacturer, "FILE");
    assert_eq!(d.processor_manufacturer, "Intel(R) Corporation");
}

#[test]
fn dmidecode_value_is_first_line_that_is_no_comment() {
    assert_eq!(dmidecode_value_of("  LENOVO \n"), "LENOVO");
    assert_eq!(dmidecode_value_of("# comment\n# another\nvalue\nnext\n"), "value");
    assert_eq!(dmidecode_value_of("# No SMBIOS nor DMI entry point found, sorry.\n"), "");
    assert_eq!(dmidecode_value_of(""), "");
}

#[test]
fn windows_outputs_fill_their_fields() {
    let w = WmiOutputs {
        computer_system: some(r#"{"Manufacturer": "Dell Inc.", "Model": "XPS 13", "SystemFamily": "XPS", "SystemSKUNumber": "0A"}"#),
        computer_system_product: some(r#"{"UUID": "4C4C4544-0031-3510-8052-B2C04F4A4E32", "IdentifyingNumber": "ABC"}"#),
        baseboard: None,
        system_enclosure: some(r#"{"Manufacturer": "Dell Inc.", "SerialNumber": "ABC", "SMBIOSAssetTag": ""}"#),
        bios: some(r#"{"Manufacturer": "Dell Inc.", "SMBIOSBIOSVersion": "1.2.3"}"#),
        processor: some(r#"{"Manufacturer": "GenuineIntel", "Name": "Intel(R) Core(TM) i7"}"#),
    };
    assert!(w.is_parsable());
    let readings = HostReadings::Windows(w);
    assert!(readings.is_parsable());
    let d = HostSmbiosData::query(&readings).unwrap();
    assert_eq!(d.system_manufacturer, "Dell Inc.");
    assert_eq!(d.system_product_name, "XPS 13");
    assert_eq!(d.system_serial_number, "ABC");
    assert_eq!(d.system_version, "");
    assert_eq!(d.baseboard_manufacturer, "");
    assert_eq!(d.chassis_asset_tag, "");
    assert_eq!(d.bios_version, "1.2.3");
    assert_eq!(d.processor_version, "Intel(R) Core(TM) i7");
    assert_eq!(d.system_uuid.unwrap()[15], 0x32);
}

#[test]
fn windows_output_cut_inside_a_character_is_not_parsable() {
    let w = WmiOutputs {
        computer_system: None,
        computer_system_product: None,
        baseboard: None,
        system_enclosure: None,
        bios: some("{\"Manufacturer\": \"\\\u{e9}\"}"),
        processor: None,
    };
    assert!(!w.is_parsable());
    assert!(!HostReadings::Windows(w).is_parsable());
}

#[test]
fn unsupported_platform_message() {
    assert_eq!(
        QueryError::UnsupportedPlatform.message(),
        "Host SMBIOS query not supported on this platform"
    );
}

fn no_outputs() -> WmiOutputs {
    WmiOutputs {
        computer_system: None,
        computer_system_product: None,
        baseboard: None,
        system_enclosure: None,
        bios: None,
        processor: None,
    }
}

#[test]
fn windows_query_without_output_leaves_its_fields_empty() {
    let mut w = no_outputs();
    w.computer_system = some(r#"{"Manufacturer": "Dell Inc.", "Model": "XPS 13"}"#);
    w.bios = some(r#"{"Manufacturer": "Dell Inc.", "SMBIOSBIOSVersion": "1.2.3"}"#);
    let d = HostSmbiosData::query(&HostReadings::Windows(w)).unwrap();
    assert!(d.system_uuid.is_none());
    assert_eq!(d.system_serial_number, "");
    assert_eq!(d.system_version, "");
    assert_eq!(d.system_manufacturer, "Dell Inc.");
    assert_eq!(d.bios_version, "1.2.3");
}

#[test]
fn parsing_the_same_output_twice_changes_nothing() {
    let json = r#"{"Manufacturer": "CM", "SerialNumber": "CS", "SMBIOSAssetTag": null}"#;
    let mut d = HostSmbiosData::default();
    d.chassis_asset_tag = "kept".to_string();
    parse_system_enclosure_json(json, &mut d);
    let once = format!("{:?}", d);
    parse_system_enclosure_json(json, &mut d);
    assert_eq!(format!("{:?}", d), once);
    assert_eq!(d.chassis_asset_tag, "kept");
}

#[test]
fn cpuinfo_read_as_lines() {
    let cpuinfo = "model name\r\nmodel name:\tAMD EPYC\r\nmodel name : later";
    let expected = cpuinfo
        .lines()
        .filter(|l| l.starts_with("model name"))
        .find_map(|l| l.split_once(':'))
        .map(|(_, v)| v.trim().to_string())
        .unwrap_or_default();
    assert_eq!(processor_info_from_cpuinfo(cpuinfo), expected);
    assert_eq!(expected, "AMD EPYC");
}
