//! The host's SMBIOS identification (manufacturer, serial numbers, UUID, ...)
//! for mirroring into a VM's firmware, assembled from what the host reports:
//! the JSON that the Windows management queries print, or the contents of the
//! Linux DMI files (with dmidecode's values where a file could not be read)
//! and `/proc/cpuinfo`.
use vstd::prelude::*;
use crate::cpuinfo::{model_name_in, processor_info_from_cpuinfo};
use crate::dmidecode::{dmidecode_value, dmidecode_value_of};
use crate::json::{
    extract_json_string, extracted_json_string, json_string_extractable,
    json_string_is_extractable,
};
use crate::text::{chars_of, string_of_range, trim, trim_range};
use crate::uuid::{parse_uuid_string, parsed_uuid};

verus! {

/// Host SMBIOS data that can be mirrored into a VM.
#[derive(Debug, Clone)]
pub struct HostSmbiosData {
    /// System serial number (Type 1, offset 0x07)
    pub system_serial_number: String,
    /// System manufacturer (Type 1, offset 0x04)
    pub system_manufacturer: String,
    /// System product name (Type 1, offset 0x05)
    pub system_product_name: String,
    /// System version (Type 1, offset 0x06)
    pub system_version: String,
    /// System SKU number (Type 1, offset 0x19)
    pub system_sku_number: String,
    /// System family (Type 1, offset 0x1A)
    pub system_family: String,
    /// System UUID (Type 1, offset 0x08)
    pub system_uuid: Option<[u8; 16]>,
    /// Base board (motherboard) serial number (Type 2, offset 0x07)
    pub baseboard_serial_number: String,
    /// Base board manufacturer (Type 2, offset 0x04)
    pub baseboard_manufacturer: String,
    /// Base board product name (Type 2, offset 0x05)
    pub baseboard_product: String,
    /// Chassis serial number (Type 3, offset 0x07)
    pub chassis_serial_number: String,
    /// Chassis asset tag (Type 3, offset 0x08)
    pub chassis_asset_tag: String,
    /// Chassis manufacturer (Type 3, offset 0x04)
    pub chassis_manufacturer: String,
    /// BIOS vendor (Type 0, offset 0x04)
    pub bios_vendor: String,
    /// BIOS version (Type 0, offset 0x05)
    pub bios_version: String,
    /// Processor manufacturer (Type 4, offset 0x07)
    pub processor_manufacturer: String,
    /// Processor version (Type 4, offset 0x10)
    pub processor_version: String,
}

/// The fields of `HostSmbiosData` as values: text as characters, the UUID as
/// its bytes.
pub struct SmbiosFields {
    pub system_serial_number: Seq<char>,
    pub system_manufacturer: Seq<char>,
    pub system_product_name: Seq<char>,
    pub system_version: Seq<char>,
    pub system_sku_number: Seq<char>,
    pub system_family: Seq<char>,
    pub system_uuid: Option<Seq<u8>>,
    pub baseboard_serial_number: Seq<char>,
    pub baseboard_manufacturer: Seq<char>,
    pub baseboard_product: Seq<char>,
    pub chassis_serial_number: Seq<char>,
    pub chassis_asset_tag: Seq<char>,
    pub chassis_manufacturer: Seq<char>,
    pub bios_vendor: Seq<char>,
    pub bios_version: Seq<char>,
    pub processor_manufacturer: Seq<char>,
    pub processor_version: Seq<char>,
}

impl View for HostSmbiosData {
    type V = SmbiosFields;

    open spec fn view(&self) -> SmbiosFields {
        SmbiosFields {
            system_serial_number: self.system_serial_number@,
            system_manufacturer: self.system_manufacturer@,
            system_product_name: self.system_product_name@,
            system_version: self.system_version@,
            system_sku_number: self.system_sku_number@,
            system_family: self.system_family@,
            system_uuid: match self.system_uuid {
                Some(b) => Some(b@),
                None => None,
            },
            baseboard_serial_number: self.baseboard_serial_number@,
            baseboard_manufacturer: self.baseboard_manufacturer@,
            baseboard_product: self.baseboard_product@,
            chassis_serial_number: self.chassis_serial_number@,
            chassis_asset_tag: self.chassis_asset_tag@,
            chassis_manufacturer: self.chassis_manufacturer@,
            bios_vendor: self.bios_vendor@,
            bios_version: self.bios_version@,
            processor_manufacturer: self.processor_manufacturer@,
            processor_version: self.processor_version@,
        }
    }
}

/// Every text field empty, no UUID.
pub open spec fn empty_fields() -> SmbiosFields {
    SmbiosFields {
        system_serial_number: Seq::empty(),
        system_manufacturer: Seq::empty(),
        system_product_name: Seq::empty(),
        system_version: Seq::empty(),
        system_sku_number: Seq::empty(),
        system_family: Seq::empty(),
        system_uuid: None,
        baseboard_serial_number: Seq::empty(),
        baseboard_manufacturer: Seq::empty(),
        baseboard_product: Seq::empty(),
        chassis_serial_number: Seq::empty(),
        chassis_asset_tag: Seq::empty(),
        chassis_manufacturer: Seq::empty(),
        bios_vendor: Seq::empty(),
        bios_version: Seq::empty(),
        processor_manufacturer: Seq::empty(),
        processor_version: Seq::empty(),
    }
}

impl Default for HostSmbiosData {
    fn default() -> (d: Self)
        ensures
            d@ == empty_fields(),
    {
        HostSmbiosData {
            system_serial_number: String::new(),
            system_manufacturer: String::new(),
            system_product_name: String::new(),
            system_version: String::new(),
            system_sku_number: String::new(),
            system_family: String::new(),
            system_uuid: None,
            baseboard_serial_number: String::new(),
            baseboard_manufacturer: String::new(),
            baseboard_product: String::new(),
            chassis_serial_number: String::new(),
            chassis_asset_tag: String::new(),
            chassis_manufacturer: String::new(),
            bios_vendor: String::new(),
            bios_version: String::new(),
            processor_manufacturer: String::new(),
            processor_version: String::new(),
        }
    }
}

/// The value found, where one was found; else the value already there.
pub open spec fn found_or(found: Option<Seq<char>>, current: Seq<char>) -> Seq<char> {
    match found {
        Some(v) => v,
        None => current,
    }
}

/// The keys of the `Win32_ComputerSystem` JSON can be looked up.
pub open spec fn computer_system_parsable(json: Seq<char>) -> bool {
    &&& json_string_extractable(json, "Manufacturer"@)
    &&& json_string_extractable(json, "Model"@)
    &&& json_string_extractable(json, "SystemFamily"@)
    &&& json_string_extractable(json, "SystemSKUNumber"@)
}

/// `d` with the values of the `Win32_ComputerSystem` JSON that are present.
pub open spec fn computer_system_update(d: SmbiosFields, json: Seq<char>) -> SmbiosFields {
    SmbiosFields {
        system_manufacturer: found_or(
            extracted_json_string(json, "Manufacturer"@),
            d.system_manufacturer,
        ),
        system_product_name: found_or(
            extracted_json_string(json, "Model"@),
            d.system_product_name,
        ),
        system_family: found_or(extracted_json_string(json, "SystemFamily"@), d.system_family),
        system_sku_number: found_or(
            extracted_json_string(json, "SystemSKUNumber"@),
            d.system_sku_number,
        ),
        ..d
    }
}

/// Parse Win32_ComputerSystem JSON output: the manufacturer, model, family
/// and SKU number it gives replace those in `data`; nothing else changes.
pub fn parse_computer_system_json(json: &str, data: &mut HostSmbiosData)
    requires
        computer_system_parsable(json@),
    ensures
        final(data)@ == computer_system_update(old(data)@, json@),
{
    if let Some(manufacturer) = extract_json_string(json, "Manufacturer") {
        data.system_manufacturer = manufacturer;
    }
    if let Some(model) = extract_json_string(json, "Model") {
        data.system_product_name = model;
    }
    if let Some(family) = extract_json_string(json, "SystemFamily") {
        data.system_family = family;
    }
    if let Some(sku) = extract_json_string(json, "SystemSKUNumber") {
        data.system_sku_number = sku;
    }
}

/// The keys of the `Win32_ComputerSystemProduct` JSON can be looked up.
pub open spec fn computer_system_product_parsable(json: Seq<char>) -> bool {
    &&& json_string_extractable(json, "IdentifyingNumber"@)
    &&& json_string_extractable(json, "Version"@)
    &&& json_string_extractable(json, "UUID"@)
}

/// `d` with the values of the `Win32_ComputerSystemProduct` JSON that are
/// present; a UUID that is present but does not parse leaves no UUID.
pub open spec fn computer_system_product_update(d: SmbiosFields, json: Seq<char>) -> SmbiosFields {
    SmbiosFields {
        system_serial_number: found_or(
            extracted_json_string(json, "IdentifyingNumber"@),
            d.system_serial_number,
        ),
        system_version: found_or(extracted_json_string(json, "Version"@), d.system_version),
        system_uuid: match extracted_json_string(json, "UUID"@) {
            Some(text) => parsed_uuid(text),
            None => d.system_uuid,
        },
        ..d
    }
}

/// Parse Win32_ComputerSystemProduct JSON output: the serial number, version
/// and UUID it gives replace those in `data`; nothing else changes.
pub fn parse_computer_system_product_json(json: &str, data: &mut HostSmbiosData)
    requires
        computer_system_product_parsable(json@),
    ensures
        final(data)@ == computer_system_product_update(old(data)@, json@),
{
    if let Some(serial) = extract_json_string(json, "IdentifyingNumber") {
        data.system_serial_number = serial;
    }
    if let Some(version) = extract_json_string(json, "Version") {
        data.system_version = version;
    }
    if let Some(uuid_str) = extract_json_string(json, "UUID") {
        data.system_uuid = parse_uuid_string(uuid_str.as_str());
    }
}

/// The keys of the `Win32_BaseBoard` JSON can be looked up.
pub open spec fn baseboard_parsable(json: Seq<char>) -> bool {
    &&& json_string_extractable(json, "Manufacturer"@)
    &&& json_string_extractable(json, "Product"@)
    &&& json_string_extractable(json, "SerialNumber"@)
}

/// `d` with the values of the `Win32_BaseBoard` JSON that are present.
pub open spec fn baseboard_update(d: SmbiosFields, json: Seq<char>) -> SmbiosFields {
    SmbiosFields {
        baseboard_manufacturer: found_or(
            extracted_json_string(json, "Manufacturer"@),
            d.baseboard_manufacturer,
        ),
        baseboard_product: found_or(extracted_json_string(json, "Product"@), d.baseboard_product),
        baseboard_serial_number: found_or(
            extracted_json_string(json, "SerialNumber"@),
            d.baseboard_serial_number,
        ),
        ..d
    }
}

/// Parse Win32_BaseBoard JSON output: the board's manufacturer, product and
/// serial number it gives replace those in `data`; nothing else changes.
pub fn parse_baseboard_json(json: &str, data: &mut HostSmbiosData)
    requires
        baseboard_parsable(json@),
    ensures
        final(data)@ == baseboard_update(old(data)@, json@),
{
    if let Some(manufacturer) = extract_json_string(json, "Manufacturer") {
        data.baseboard_manufacturer = manufacturer;
    }
    if let Some(product) = extract_json_string(json, "Product") {
        data.baseboard_product = product;
    }
    if let Some(serial) = extract_json_string(json, "SerialNumber") {
        data.baseboard_serial_number = serial;
    }
}

/// The keys of the `Win32_SystemEnclosure` JSON can be looked up.
pub open spec fn system_enclosure_parsable(json: Seq<char>) -> bool {
    &&& json_string_extractable(json, "Manufacturer"@)
    &&& json_string_extractable(json, "SerialNumber"@)
    &&& json_string_extractable(json, "SMBIOSAssetTag"@)
}

/// `d` with the values of the `Win32_SystemEnclosure` JSON that are present.
pub open spec fn system_enclosure_update(d: SmbiosFields, json: Seq<char>) -> SmbiosFields {
    SmbiosFields {
        chassis_manufacturer: found_or(
            extracted_json_string(json, "Manufacturer"@),
            d.chassis_manufacturer,
        ),
        chassis_serial_number: found_or(
            extracted_json_string(json, "SerialNumber"@),
            d.chassis_serial_number,
        ),
        chassis_asset_tag: found_or(
            extracted_json_string(json, "SMBIOSAssetTag"@),
            d.chassis_asset_tag,
        ),
        ..d
    }
}

/// Parse Win32_SystemEnclosure JSON output: the chassis manufacturer, serial
/// number and asset tag it gives replace those in `data`; nothing else
/// changes.
pub fn parse_system_enclosure_json(json: &str, data: &mut HostSmbiosData)
    requires
        system_enclosure_parsable(json@),
    ensures
        final(data)@ == system_enclosure_update(old(data)@, json@),
{
    if let Some(manufacturer) = extract_json_string(json, "Manufacturer") {
        data.chassis_manufacturer = manufacturer;
    }
    if let Some(serial) = extract_json_string(json, "SerialNumber") {
        data.chassis_serial_number = serial;
    }
    if let Some(asset_tag) = extract_json_string(json, "SMBIOSAssetTag") {
        data.chassis_asset_tag = asset_tag;
    }
}

/// The keys of the `Win32_BIOS` JSON can be looked up.
pub open spec fn bios_parsable(json: Seq<char>) -> bool {
    &&& json_string_extractable(json, "Manufacturer"@)
    &&& json_string_extractable(json, "SMBIOSBIOSVersion"@)
}

/// `d` with the values of the `Win32_BIOS` JSON that are present.
pub open spec fn bios_update(d: SmbiosFields, json: Seq<char>) -> SmbiosFields {
    SmbiosFields {
        bios_vendor: found_or(extracted_json_string(json, "Manufacturer"@), d.bios_vendor),
        bios_version: found_or(extracted_json_string(json, "SMBIOSBIOSVersion"@), d.bios_version),
        ..d
    }
}

/// Parse Win32_BIOS JSON output: the BIOS vendor and version it gives replace
/// those in `data`; nothing else changes.
pub fn parse_bios_json(json: &str, data: &mut HostSmbiosData)
    requires
        bios_parsable(json@),
    ensures
        final(data)@ == bios_update(old(data)@, json@),
{
    if let Some(vendor) = extract_json_string(json, "Manufacturer") {
        data.bios_vendor = vendor;
    }
    if let Some(version) = extract_json_string(json, "SMBIOSBIOSVersion") {
        data.bios_version = version;
    }
}

/// The keys of the `Win32_Processor` JSON can be looked up.
pub open spec fn processor_parsable(json: Seq<char>) -> bool {
    &&& json_string_extractable(json, "Manufacturer"@)
    &&& json_string_extractable(json, "Name"@)
}

/// `d` with the values of the `Win32_Processor` JSON that are present.
pub open spec fn processor_update(d: SmbiosFields, json: Seq<char>) -> SmbiosFields {
    SmbiosFields {
        processor_manufacturer: found_or(
            extracted_json_string(json, "Manufacturer"@),
            d.processor_manufacturer,
        ),
        processor_version: found_or(extracted_json_string(json, "Name"@), d.processor_version),
        ..d
    }
}

/// Parse Win32_Processor JSON output: the processor's manufacturer and name it
/// gives replace those in `data`; nothing else changes.
pub fn parse_processor_json(json: &str, data: &mut HostSmbiosData)
    requires
        processor_parsable(json@),
    ensures
        final(data)@ == processor_update(old(data)@, json@),
{
    if let Some(manufacturer) = extract_json_string(json, "Manufacturer") {
        data.processor_manufacturer = manufacturer;
    }
    if let Some(name) = extract_json_string(json, "Name") {
        data.processor_version = name;
    }
}

/// What the Windows management queries printed: for each query, its JSON
/// output where the query succeeded and printed UTF-8, else `None`.
pub struct WmiOutputs {
    /// `Win32_ComputerSystem`: Manufacturer, Model, SystemFamily, SystemSKUNumber
    pub computer_system: Option<String>,
    /// `Win32_ComputerSystemProduct`: UUID, Vendor, Version, IdentifyingNumber
    pub computer_system_product: Option<String>,
    /// `Win32_BaseBoard`: Manufacturer, Product, SerialNumber
    pub baseboard: Option<String>,
    /// `Win32_SystemEnclosure`: Manufacturer, SerialNumber, SMBIOSAssetTag
    pub system_enclosure: Option<String>,
    /// `Win32_BIOS`: Manufacturer, SMBIOSBIOSVersion, SerialNumber
    pub bios: Option<String>,
    /// `Win32_Processor` (the first one): Manufacturer, Name
    pub processor: Option<String>,
}

/// Where a DMI value can be had from: its file in `/sys/class/dmi/id/`, and,
/// as a fallback, the output of `dmidecode -s` for it; each where it could be
/// had as text, else `None`.
pub struct DmiSource {
    pub file: Option<String>,
    pub dmidecode: Option<String>,
}

/// What the Linux host reports: each DMI value's sources, the output of
/// `dmidecode -s processor-manufacturer` (which no DMI file holds), and the
/// contents of `/proc/cpuinfo` where it could be read.
pub struct DmiReadings {
    /// `product_serial`, or `dmidecode -s system-serial-number`
    pub product_serial: DmiSource,
    /// `sys_vendor`, or `dmidecode -s system-manufacturer`
    pub sys_vendor: DmiSource,
    /// `product_name`, or `dmidecode -s system-product-name`
    pub product_name: DmiSource,
    /// `product_version`, or `dmidecode -s system-version`
    pub product_version: DmiSource,
    /// `product_sku`, or `dmidecode -s system-sku-number`
    pub product_sku: DmiSource,
    /// `product_family`, or `dmidecode -s system-family`
    pub product_family: DmiSource,
    /// `product_uuid`, or `dmidecode -s system-uuid`
    pub product_uuid: DmiSource,
    /// `board_serial`, or `dmidecode -s baseboard-serial-number`
    pub board_serial: DmiSource,
    /// `board_vendor`, or `dmidecode -s baseboard-manufacturer`
    pub board_vendor: DmiSource,
    /// `board_name`, or `dmidecode -s baseboard-product-name`
    pub board_name: DmiSource,
    /// `chassis_serial`, or `dmidecode -s chassis-serial-number`
    pub chassis_serial: DmiSource,
    /// `chassis_asset_tag`, or `dmidecode -s chassis-asset-tag`
    pub chassis_asset_tag: DmiSource,
    /// `chassis_vendor`, or `dmidecode -s chassis-manufacturer`
    pub chassis_vendor: DmiSource,
    /// `bios_vendor`, or `dmidecode -s bios-vendor`
    pub bios_vendor: DmiSource,
    /// `bios_version`, or `dmidecode -s bios-version`
    pub bios_version: DmiSource,
    /// `dmidecode -s processor-manufacturer`
    pub processor_manufacturer: Option<String>,
    /// The contents of `/proc/cpuinfo`.
    pub cpuinfo: Option<String>,
}

/// What the host reported, by the kind of host.
pub enum HostReadings {
    Windows(WmiOutputs),
    Linux(DmiReadings),
    /// A host of another kind, which has no query.
    Unsupported,
}

/// Why the host's SMBIOS data could not be had.
#[derive(Debug, PartialEq, Eq, Structural)]
pub enum QueryError {
    /// The host is of a kind that has no query.
    UnsupportedPlatform,
}

impl QueryError {
    /// The error's message.
    pub fn message(&self) -> (m: String)
        ensures
            m@ == match self {
                QueryError::UnsupportedPlatform => "Host SMBIOS query not supported on this platform"@,
            },
    {
        match self {
            QueryError::UnsupportedPlatform => "Host SMBIOS query not supported on this platform".to_owned(),
        }
    }
}

/// The output `json` of a query, where there is one, satisfies `parsable`.
pub open spec fn output_parsable(json: Option<String>, parsable: spec_fn(Seq<char>) -> bool) -> bool {
    match json {
        Some(j) => parsable(j@),
        None => true,
    }
}

/// Every key that the parsing of the Windows outputs looks up can be looked up.
pub open spec fn wmi_parsable(w: WmiOutputs) -> bool {
    &&& output_parsable(w.computer_system, |j: Seq<char>| computer_system_parsable(j))
    &&& output_parsable(w.computer_system_product, |j: Seq<char>| computer_system_product_parsable(j))
    &&& output_parsable(w.baseboard, |j: Seq<char>| baseboard_parsable(j))
    &&& output_parsable(w.system_enclosure, |j: Seq<char>| system_enclosure_parsable(j))
    &&& output_parsable(w.bios, |j: Seq<char>| bios_parsable(j))
    &&& output_parsable(w.processor, |j: Seq<char>| processor_parsable(j))
}

/// The readings can be turned into SMBIOS data: on Windows, every key that is
/// looked up can be; the other readings always can.
pub open spec fn readings_parsable(readings: HostReadings) -> bool {
    match readings {
        HostReadings::Windows(w) => wmi_parsable(w),
        _ => true,
    }
}

/// `d` updated with the output `json` of a query, where there is one.
pub open spec fn apply_output(
    d: SmbiosFields,
    json: Option<String>,
    update: spec_fn(SmbiosFields, Seq<char>) -> SmbiosFields,
) -> SmbiosFields {
    match json {
        Some(j) => update(d, j@),
        None => d,
    }
}

/// The SMBIOS data of a Windows host: empty fields, updated in turn with the
/// output of each query that has one.
pub open spec fn wmi_fields(w: WmiOutputs) -> SmbiosFields {
    let d1 = apply_output(empty_fields(), w.computer_system, |d, j| computer_system_update(d, j));
    let d2 = apply_output(
        d1,
        w.computer_system_product,
        |d, j| computer_system_product_update(d, j),
    );
    let d3 = apply_output(d2, w.baseboard, |d, j| baseboard_update(d, j));
    let d4 = apply_output(d3, w.system_enclosure, |d, j| system_enclosure_update(d, j));
    let d5 = apply_output(d4, w.bios, |d, j| bios_update(d, j));
    apply_output(d5, w.processor, |d, j| processor_update(d, j))
}

/// The value of a dmidecode output, where there is one; else empty.
pub open spec fn dmidecode_text(out: Option<String>) -> Seq<char> {
    match out {
        Some(o) => dmidecode_value(o@),
        None => Seq::empty(),
    }
}

/// A DMI value: its file's contents trimmed; where the file was not read, the
/// value that dmidecode printed; empty where neither was had.
pub open spec fn dmi_text(source: DmiSource) -> Seq<char> {
    match source.file {
        Some(s) => trim(s@),
        None => dmidecode_text(source.dmidecode),
    }
}

/// The system UUID: parsed from the trimmed `product_uuid`; where that file
/// was not read, from the value that dmidecode printed; none where neither
/// was had.
pub open spec fn dmi_uuid(source: DmiSource) -> Option<Seq<u8>> {
    match source.file {
        Some(s) => parsed_uuid(trim(s@)),
        None => match source.dmidecode {
            Some(o) => parsed_uuid(dmidecode_value(o@)),
            None => None,
        },
    }
}

/// The SMBIOS data of a Linux host: each DMI value trimmed (falling back to
/// dmidecode where its file was not read), the UUID parsed the same way, the
/// processor's manufacturer as dmidecode gives it, and its name from
/// `/proc/cpuinfo`.
pub open spec fn dmi_fields(l: DmiReadings) -> SmbiosFields {
    SmbiosFields {
        system_serial_number: dmi_text(l.product_serial),
        system_manufacturer: dmi_text(l.sys_vendor),
        system_product_name: dmi_text(l.product_name),
        system_version: dmi_text(l.product_version),
        system_sku_number: dmi_text(l.product_sku),
        system_family: dmi_text(l.product_family),
        system_uuid: dmi_uuid(l.product_uuid),
        baseboard_serial_number: dmi_text(l.board_serial),
        baseboard_manufacturer: dmi_text(l.board_vendor),
        baseboard_product: dmi_text(l.board_name),
        chassis_serial_number: dmi_text(l.chassis_serial),
        chassis_asset_tag: dmi_text(l.chassis_asset_tag),
        chassis_manufacturer: dmi_text(l.chassis_vendor),
        bios_vendor: dmi_text(l.bios_vendor),
        bios_version: dmi_text(l.bios_version),
        processor_manufacturer: dmidecode_text(l.processor_manufacturer),
        processor_version: match l.cpuinfo {
            Some(c) => match model_name_in(c@) {
                Some(name) => name,
                None => Seq::empty(),
            },
            None => Seq::empty(),
        },
    }
}

/// `s` without its leading and trailing white space, as a `String`.
pub fn trimmed_string(s: &str) -> (r: String)
    ensures
        r@ == trim(s@),
{
    let chars = chars_of(s);
    let (a, b) = trim_range(&chars, 0, chars.len());
    assert(chars@.subrange(0, chars@.len() as int) =~= chars@);
    string_of_range(&chars, a, b)
}

/// The value of a dmidecode output, where there is one; else empty.
fn read_dmidecode(out: &Option<String>) -> (r: String)
    ensures
        r@ == dmidecode_text(*out),
{
    match out {
        Some(o) => dmidecode_value_of(o.as_str()),
        None => String::new(),
    }
}

/// A DMI value: the file's contents trimmed, else dmidecode's value, else
/// empty.
fn read_dmi(source: &DmiSource) -> (r: String)
    ensures
        r@ == dmi_text(*source),
{
    match &source.file {
        Some(s) => trimmed_string(s.as_str()),
        None => read_dmidecode(&source.dmidecode),
    }
}

/// The product UUID: the contents of `product_uuid` trimmed and parsed, else
/// dmidecode's value parsed.
fn read_product_uuid(source: &DmiSource) -> (r: Option<[u8; 16]>)
    ensures
        (match r {
            Some(b) => Some(b@),
            None => None,
        }) == dmi_uuid(*source),
{
    match &source.file {
        Some(s) => {
            let trimmed = trimmed_string(s.as_str());
            parse_uuid_string(trimmed.as_str())
        },
        None => match &source.dmidecode {
            Some(o) => {
                let value = dmidecode_value_of(o.as_str());
                parse_uuid_string(value.as_str())
            },
            None => None,
        },
    }
}

/// The processor's name from the contents of `/proc/cpuinfo`, or empty where
/// it was not read.
fn read_processor_info(cpuinfo: &Option<String>) -> (r: String)
    ensures
        r@ == match *cpuinfo {
            Some(c) => match model_name_in(c@) {
                Some(name) => name,
                None => Seq::<char>::empty(),
            },
            None => Seq::<char>::empty(),
        },
{
    match cpuinfo {
        Some(c) => processor_info_from_cpuinfo(c.as_str()),
        None => String::new(),
    }
}

/// Tells whether every key that the parsing of `json` looks up (by `keys`) can
/// be looked up.
fn keys_extractable(json: &Option<String>, keys: &Vec<&str>) -> (b: bool)
    ensures
        b == match *json {
            Some(j) => forall|i: int| 0 <= i < keys.len() ==> json_string_extractable(j@, keys[i]@),
            None => true,
        },
{
    match json {
        Some(j) => {
            let mut i: usize = 0;
            while i < keys.len()
                invariant
                    0 <= i <= keys.len(),
                    *json == Some(*j),
                    forall|k: int| 0 <= k < i ==> json_string_extractable(j@, keys[k]@),
                decreases keys.len() - i,
            {
                if !json_string_is_extractable(j.as_str(), keys[i]) {
                    assert(!json_string_extractable(j@, keys[i as int]@));
                    return false;
                }
                i = i + 1;
            }
            true
        },
        None => true,
    }
}

impl WmiOutputs {
    /// Tells whether the outputs can be parsed: whether every key that is
    /// looked up in them can be (see `json_string_is_extractable`).
    pub fn is_parsable(&self) -> (b: bool)
        ensures
            b == wmi_parsable(*self),
    {
        let computer_system = keys_extractable(
            &self.computer_system,
            &vec!["Manufacturer", "Model", "SystemFamily", "SystemSKUNumber"],
        );
        let product = keys_extractable(
            &self.computer_system_product,
            &vec!["IdentifyingNumber", "Version", "UUID"],
        );
        let baseboard = keys_extractable(
            &self.baseboard,
            &vec!["Manufacturer", "Product", "SerialNumber"],
        );
        let enclosure = keys_extractable(
            &self.system_enclosure,
            &vec!["Manufacturer", "SerialNumber", "SMBIOSAssetTag"],
        );
        let bios = keys_extractable(&self.bios, &vec!["Manufacturer", "SMBIOSBIOSVersion"]);
        let processor = keys_extractable(&self.processor, &vec!["Manufacturer", "Name"]);
        computer_system && product && baseboard && enclosure && bios && processor
    }
}

impl HostReadings {
    /// Tells whether the readings can be turned into SMBIOS data, as
    /// `HostSmbiosData::query` requires.
    pub fn is_parsable(&self) -> (b: bool)
        ensures
            b == readings_parsable(*self),
    {
        match self {
            HostReadings::Windows(w) => w.is_parsable(),
            _ => true,
        }
    }
}

impl HostSmbiosData {
    /// The SMBIOS data of a Windows host, from the outputs of its management
    /// queries.
    pub fn from_wmi_outputs(w: &WmiOutputs) -> (d: HostSmbiosData)
        requires
            wmi_parsable(*w),
        ensures
            d@ == wmi_fields(*w),
    {
        let mut data = HostSmbiosData::default();
        if let Some(json) = &w.computer_system {
            parse_computer_system_json(json.as_str(), &mut data);
        }
        if let Some(json) = &w.computer_system_product {
            parse_computer_system_product_json(json.as_str(), &mut data);
        }
        if let Some(json) = &w.baseboard {
            parse_baseboard_json(json.as_str(), &mut data);
        }
        if let Some(json) = &w.system_enclosure {
            parse_system_enclosure_json(json.as_str(), &mut data);
        }
        if let Some(json) = &w.bios {
            parse_bios_json(json.as_str(), &mut data);
        }
        if let Some(json) = &w.processor {
            parse_processor_json(json.as_str(), &mut data);
        }
        data
    }

    /// The SMBIOS data of a Linux host, from its DMI files (or dmidecode, where
    /// a file was not read) and `/proc/cpuinfo`.
    pub fn from_dmi_readings(l: &DmiReadings) -> (d: HostSmbiosData)
        ensures
            d@ == dmi_fields(*l),
    {
        HostSmbiosData {
            system_serial_number: read_dmi(&l.product_serial),
            system_manufacturer: read_dmi(&l.sys_vendor),
            system_product_name: read_dmi(&l.product_name),
            system_version: read_dmi(&l.product_version),
            system_sku_number: read_dmi(&l.product_sku),
            system_family: read_dmi(&l.product_family),
            system_uuid: read_product_uuid(&l.product_uuid),
            baseboard_serial_number: read_dmi(&l.board_serial),
            baseboard_manufacturer: read_dmi(&l.board_vendor),
            baseboard_product: read_dmi(&l.board_name),
            chassis_serial_number: read_dmi(&l.chassis_serial),
            chassis_asset_tag: read_dmi(&l.chassis_asset_tag),
            chassis_manufacturer: read_dmi(&l.chassis_vendor),
            bios_vendor: read_dmi(&l.bios_vendor),
            bios_version: read_dmi(&l.bios_version),
            processor_manufacturer: read_dmidecode(&l.processor_manufacturer),
            processor_version: read_processor_info(&l.cpuinfo),
        }
    }

    /// Query the host system's SMBIOS data, from what the host reported.
    ///
    /// On Windows, from the outputs of the WMI queries; on Linux, from
    /// `/sys/class/dmi/id/`, falling back to dmidecode, and `/proc/cpuinfo`;
    /// any other host has no query.
    pub fn query(readings: &HostReadings) -> (r: Result<HostSmbiosData, QueryError>)
        requires
            readings_parsable(*readings),
        ensures
            match *readings {
                HostReadings::Windows(w) => r matches Ok(d) && d@ == wmi_fields(w),
                HostReadings::Linux(l) => r matches Ok(d) && d@ == dmi_fields(l),
                HostReadings::Unsupported => r matches Err(QueryError::UnsupportedPlatform),
            },
    {
        match readings {
            HostReadings::Windows(w) => Ok(HostSmbiosData::from_wmi_outputs(w)),
            HostReadings::Linux(l) => Ok(HostSmbiosData::from_dmi_readings(l)),
            HostReadings::Unsupported => Err(QueryError::UnsupportedPlatform),
        }
    }
}

/// The value of `key` in the output `json` of a query, where there is one.
pub open spec fn output_value(json: Option<String>, key: Seq<char>) -> Option<Seq<char>> {
    match json {
        Some(j) => extracted_json_string(j@, key),
        None => None,
    }
}

/// Each field of a Windows host's data comes from the one query that gives
/// it: the value of its key in that query's output, or empty (no UUID) where
/// the query gave no output or the output no value. So a query without
/// output leaves its fields at their defaults, and the other queries still
/// fill theirs.
pub proof fn lemma_wmi_fields_by_query(w: WmiOutputs)
    ensures
        wmi_fields(w).system_manufacturer == found_or(
            output_value(w.computer_system, "Manufacturer"@),
            Seq::empty(),
        ),
        wmi_fields(w).system_product_name == found_or(
            output_value(w.computer_system, "Model"@),
            Seq::empty(),
        ),
        wmi_fields(w).system_family == found_or(
            output_value(w.computer_system, "SystemFamily"@),
            Seq::empty(),
        ),
        wmi_fields(w).system_sku_number == found_or(
            output_value(w.computer_system, "SystemSKUNumber"@),
            Seq::empty(),
        ),
        wmi_fields(w).system_serial_number == found_or(
            output_value(w.computer_system_product, "IdentifyingNumber"@),
            Seq::empty(),
        ),
        wmi_fields(w).system_version == found_or(
            output_value(w.computer_system_product, "Version"@),
            Seq::empty(),
        ),
        wmi_fields(w).system_uuid == match output_value(w.computer_system_product, "UUID"@) {
            Some(text) => parsed_uuid(text),
            None => None,
        },
        wmi_fields(w).baseboard_manufacturer == found_or(
            output_value(w.baseboard, "Manufacturer"@),
            Seq::empty(),
        ),
        wmi_fields(w).baseboard_product == found_or(
            output_value(w.baseboard, "Product"@),
            Seq::empty(),
        ),
        wmi_fields(w).baseboard_serial_number == found_or(
            output_value(w.baseboard, "SerialNumber"@),
            Seq::empty(),
        ),
        wmi_fields(w).chassis_manufacturer == found_or(
            output_value(w.system_enclosure, "Manufacturer"@),
            Seq::empty(),
        ),
        wmi_fields(w).chassis_serial_number == found_or(
            output_value(w.system_enclosure, "SerialNumber"@),
            Seq::empty(),
        ),
        wmi_fields(w).chassis_asset_tag == found_or(
            output_value(w.system_enclosure, "SMBIOSAssetTag"@),
            Seq::empty(),
        ),
        wmi_fields(w).bios_vendor == found_or(output_value(w.bios, "Manufacturer"@), Seq::empty()),
        wmi_fields(w).bios_version == found_or(
            output_value(w.bios, "SMBIOSBIOSVersion"@),
            Seq::empty(),
        ),
        wmi_fields(w).processor_manufacturer == found_or(
            output_value(w.processor, "Manufacturer"@),
            Seq::empty(),
        ),
        wmi_fields(w).processor_version == found_or(
            output_value(w.processor, "Name"@),
            Seq::empty(),
        ),
{
}

/// Parsing the same output a second time changes nothing, for each of the
/// Windows queries.
pub proof fn lemma_wmi_updates_idempotent(d: SmbiosFields, json: Seq<char>)
    ensures
        computer_system_update(computer_system_update(d, json), json)
            == computer_system_update(d, json),
        computer_system_product_update(computer_system_product_update(d, json), json)
            == computer_system_product_update(d, json),
        baseboard_update(baseboard_update(d, json), json) == baseboard_update(d, json),
        system_enclosure_update(system_enclosure_update(d, json), json)
            == system_enclosure_update(d, json),
        bios_update(bios_update(d, json), json) == bios_update(d, json),
        processor_update(processor_update(d, json), json) == processor_update(d, json),
{
}

/// `field` is the value that `source` gives: its file's contents trimmed
/// where the file was read, else what dmidecode printed for it (its first
/// line that is no comment, trimmed), else empty.
pub open spec fn taken_from(field: Seq<char>, source: DmiSource) -> bool {
    match source.file {
        Some(s) => field == trim(s@),
        None => match source.dmidecode {
            Some(o) => field == dmidecode_value(o@),
            None => field == Seq::<char>::empty(),
        },
    }
}

/// Each field of a Linux host's data comes from its own source and from no
/// other: the system serial number from `product_serial`, the manufacturer
/// from `sys_vendor`, the product name from `product_name`, the version from
/// `product_version`, and so on; a source that was not read at all gives an
/// empty field; the UUID is parsed from its own source, the processor's
/// manufacturer is what dmidecode printed for it, and its name is the value
/// of the first `model name` line of `/proc/cpuinfo`.
pub proof fn lemma_linux_fields_from_own_sources(l: DmiReadings)
    ensures
        taken_from(dmi_fields(l).system_serial_number, l.product_serial),
        taken_from(dmi_fields(l).system_manufacturer, l.sys_vendor),
        taken_from(dmi_fields(l).system_product_name, l.product_name),
        taken_from(dmi_fields(l).system_version, l.product_version),
        taken_from(dmi_fields(l).system_sku_number, l.product_sku),
        taken_from(dmi_fields(l).system_family, l.product_family),
        taken_from(dmi_fields(l).baseboard_serial_number, l.board_serial),
        taken_from(dmi_fields(l).baseboard_manufacturer, l.board_vendor),
        taken_from(dmi_fields(l).baseboard_product, l.board_name),
        taken_from(dmi_fields(l).chassis_serial_number, l.chassis_serial),
        taken_from(dmi_fields(l).chassis_asset_tag, l.chassis_asset_tag),
        taken_from(dmi_fields(l).chassis_manufacturer, l.chassis_vendor),
        taken_from(dmi_fields(l).bios_vendor, l.bios_vendor),
        taken_from(dmi_fields(l).bios_version, l.bios_version),
        taken_from(
            dmi_fields(l).processor_manufacturer,
            DmiSource { file: None, dmidecode: l.processor_manufacturer },
        ),
        dmi_fields(l).system_uuid == match l.product_uuid.file {
            Some(s) => parsed_uuid(trim(s@)),
            None => match l.product_uuid.dmidecode {
                Some(o) => parsed_uuid(dmidecode_value(o@)),
                None => None,
            },
        },
        dmi_fields(l).processor_version == match l.cpuinfo {
            Some(c) => match model_name_in(c@) {
                Some(name) => name,
                None => Seq::<char>::empty(),
            },
            None => Seq::<char>::empty(),
        },
{
}

/// A Linux host's readings can always be turned into data: a DMI file or a
/// dmidecode value that could not be had only leaves its field empty.
pub proof fn lemma_linux_readings_parsable(l: DmiReadings)
    ensures
        readings_parsable(HostReadings::Linux(l)),
{
}

} // verus!
