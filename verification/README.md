# host_smbios

The host's SMBIOS identification (system, board, chassis, BIOS and processor
strings, and the system UUID) for mirroring into a VM's firmware, with its
parsing verified by Verus.

- `src/` is the verified library: the JSON string lookup used on the output of
  the Windows management queries, the UUID parser, the `/proc/cpuinfo` model
  name lookup, the Linux DMI values (trimmed, or dmidecode's value where a
  DMI file was not read), and the assembly of
  `HostSmbiosData` from what a host reported (`HostSmbiosData::query`).
- `app/` does the reading: it runs the WMI queries on Windows, reads
  `/sys/class/dmi/id/` (running dmidecode for what cannot be read there) and
  `/proc/cpuinfo` on Linux, and hands the results to the library.
- `tests/` runs the library on concrete inputs.
