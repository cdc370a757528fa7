//! Host SMBIOS data for a VM's firmware: the values that mirror the host's
//! system, board, chassis, BIOS and processor identification (so that the VM
//! appears as the host hardware in SMBIOS queries), assembled from what the
//! host reports.
//!
//! - `text`: text as a sequence of characters, with trimming, matching and
//!   line splitting proved against that model;
//! - `json`: lookup of a string value by key in the small JSON objects that
//!   the Windows management queries print;
//! - `uuid`: UUID text to the 16 bytes of the SMBIOS system UUID;
//! - `cpuinfo`: the processor's name from `/proc/cpuinfo`;
//! - `dmidecode`: the value in the output of `dmidecode -s`;
//! - `smbios`: the data itself, and how it is assembled from the readings of a
//!   Windows or a Linux host.
pub mod cpuinfo;
pub mod dmidecode;
pub mod json;
pub mod smbios;
pub mod text;
pub mod uuid;

pub use cpuinfo::processor_info_from_cpuinfo;
pub use dmidecode::dmidecode_value_of;
pub use json::{extract_json_string, json_string_is_extractable};
pub use smbios::{
    parse_baseboard_json, parse_bios_json, parse_computer_system_json,
    parse_computer_system_product_json, parse_processor_json, parse_system_enclosure_json,
    DmiReadings, DmiSource, HostReadings, HostSmbiosData, QueryError, WmiOutputs,
};
pub use uuid::parse_uuid_string;
