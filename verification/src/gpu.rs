//! GPU statistics monitoring.
//!
//! Cards are found once, at start-up: the DRM cards whose driver publishes
//! utilization or video memory in sysfs (as `amdgpu` does), and the cards
//! `nvidia-smi` lists. Each refresh then reads the live values of every card
//! from its source. Reading files and running `nvidia-smi` is the caller's
//! part; this module decides what is read, parses what comes back and puts
//! the readings together.

use vstd::prelude::*;
use crate::pci::{lookup_pci_name, pci_model_name};
use crate::text::{
    chars_of, hex4, lines, next_line, parse_hex_u16, parse_u64, parse_unsigned_range,
    push_char, push_hex4, range_is_blank, range_starts_with, starts_with, trim, trim_range,
};

verus! {

// ---------------------------------------------------------------------------
// Devices
// ---------------------------------------------------------------------------

/// Where a card's live readings come from.
pub enum GpuSource {
    /// Driver files under `/sys/class/drm/cardN/device`, as `amdgpu` exposes
    /// them: the card's device directory and its hwmon directory, if any.
    Sysfs { device: String, hwmon: Option<String> },
    /// A row of `nvidia-smi` output, identified by its position.
    NvidiaSmi { index: usize },
}

/// A GPU we know how to read, together with the details that never change.
pub struct GpuDevice {
    /// Model name, e.g. "Radeon RX 6600/6600 XT/6600M"
    pub name: String,
    /// Vendor name, e.g. "AMD"
    pub vendor: String,
    /// Where this card's live readings come from
    pub source: GpuSource,
}

/// The display name of a PCI vendor id.
pub open spec fn vendor_label(vendor_id: Option<u16>) -> Seq<char> {
    match vendor_id {
        Some(id) => if id == 0x1002 {
            "AMD"@
        } else if id == 0x10de {
            "NVIDIA"@
        } else if id == 0x8086 {
            "Intel"@
        } else {
            "Unknown"@
        },
        None => "Unknown"@,
    }
}

/// Maps a PCI vendor id to a display name.
pub fn vendor_name(vendor_id: Option<u16>) -> (r: String)
    ensures
        r@ == vendor_label(vendor_id),
{
    match vendor_id {
        Some(0x1002) => String::from_str("AMD"),
        Some(0x10de) => String::from_str("NVIDIA"),
        Some(0x8086) => String::from_str("Intel"),
        _ => String::from_str("Unknown"),
    }
}

/// `s` with every leading "0x" removed (`str::trim_start_matches("0x")`).
pub open spec fn strip_hex_prefixes(s: Seq<char>) -> Seq<char>
    decreases s.len(),
{
    if starts_with(s, seq!['0', 'x']) {
        strip_hex_prefixes(s.skip(2))
    } else {
        s
    }
}

/// The PCI id a sysfs id file such as "0x1002\n" holds.
pub open spec fn pci_id_of(text: Seq<char>) -> Option<u16> {
    parse_hex_u16(strip_hex_prefixes(trim(text)))
}

/// Reads a sysfs PCI id such as "0x1002".
pub fn read_hex_id(text: &str) -> (r: Option<u16>)
    ensures
        r == pci_id_of(text@),
{
    let v = chars_of(text);
    let n = v.len();
    assert(v@.subrange(0, n as int) =~= v@);
    let (mut a, b) = trim_range(&v, 0, n);
    let prefix = vec!['0', 'x'];
    assert(prefix@ =~= seq!['0', 'x']);
    while range_starts_with(&v, a, b, &prefix)
        invariant
            a <= b <= n == v.len(),
            prefix@ == seq!['0', 'x'],
            strip_hex_prefixes(trim(text@)) == strip_hex_prefixes(v@.subrange(a as int, b as int)),
        decreases b - a,
    {
        assert(v@.subrange(a as int, b as int).skip(2) =~= v@.subrange(a + 2, b as int));
        a = a + 2;
    }
    match parse_unsigned_range(&v, a, b, 16, 0xffff) {
        Some(id) => Some(id as u16),
        None => None,
    }
}

/// The PCI id in an id file, when the file could be read.
pub open spec fn id_from_file(file: Option<String>) -> Option<u16> {
    match file {
        Some(text) => pci_id_of(text@),
        None => None,
    }
}

/// The name shown for a card: the model name from the PCI id database when
/// both ids are known and the database names the device, the two ids in
/// hexadecimal when only the name is missing, "Unknown GPU" otherwise.
pub open spec fn device_display_name(
    vendor_id: Option<u16>,
    device_id: Option<u16>,
    database: Option<Seq<char>>,
) -> Seq<char> {
    match (vendor_id, device_id) {
        (Some(vendor), Some(model)) => {
            let fallback = hex4(vendor) + seq![':'] + hex4(model);
            match database {
                Some(db) => match pci_model_name(db, vendor, model) {
                    Some(name) => name,
                    None => fallback,
                },
                None => fallback,
            }
        },
        _ => "Unknown GPU"@,
    }
}

/// What the caller found in a DRM card's device directory.
pub struct SysfsProbe {
    /// Whether `gpu_busy_percent` exists
    pub has_busy_percent: bool,
    /// Whether `mem_info_vram_total` exists
    pub has_vram_total: bool,
    /// The text of the `vendor` file, when it could be read
    pub vendor: Option<String>,
    /// The text of the `device` file, when it could be read
    pub device: Option<String>,
}

/// Builds a device entry for a DRM card, if it reports anything we can show.
///
/// Drivers publishing neither utilization nor video memory (Intel's i915 and
/// xe, nouveau, and NVIDIA's proprietary DRM node) have nothing to offer here,
/// so they are skipped rather than shown as an empty panel. `pci_database`
/// is the text of the PCI id database, where one could be read.
pub fn describe_sysfs_device(
    device: String,
    probe: &SysfsProbe,
    pci_database: Option<&str>,
    hwmon: Option<String>,
) -> (r: Option<GpuDevice>)
    ensures
        !probe.has_busy_percent && !probe.has_vram_total ==> r is None,
        probe.has_busy_percent || probe.has_vram_total ==> (r matches Some(d) && d.name@
            == device_display_name(
            id_from_file(probe.vendor),
            id_from_file(probe.device),
            match pci_database {
                Some(db) => Some(db@),
                None => None,
            },
        ) && d.vendor@ == vendor_label(id_from_file(probe.vendor)) && d.source == (GpuSource::Sysfs {
            device,
            hwmon,
        })),
{
    if !probe.has_busy_percent && !probe.has_vram_total {
        return None;
    }
    let vendor_id = match &probe.vendor {
        Some(text) => read_hex_id(text.as_str()),
        None => None,
    };
    let device_id = match &probe.device {
        Some(text) => read_hex_id(text.as_str()),
        None => None,
    };
    let name = match (vendor_id, device_id) {
        (Some(vendor), Some(model)) => {
            let found = match pci_database {
                Some(db) => lookup_pci_name(db, vendor, model),
                None => None,
            };
            match found {
                Some(name) => name,
                None => {
                    let mut s = String::new();
                    push_hex4(&mut s, vendor);
                    push_char(&mut s, ':');
                    push_hex4(&mut s, model);
                    s
                },
            }
        },
        _ => String::from_str("Unknown GPU"),
    };
    Some(GpuDevice { name, vendor: vendor_name(vendor_id), source: GpuSource::Sysfs { device, hwmon } })
}

/// Whether `name` is the name of a hwmon directory.
pub open spec fn is_hwmon_name(name: Seq<char>) -> bool {
    starts_with(name, "hwmon"@)
}

/// Picks the hwmon directory a card publishes its sensors under among the
/// entries of its `hwmon` directory: the first whose name starts with
/// "hwmon". The hwmon index is handed out at probe time, so it has to be
/// looked up rather than assumed.
pub fn find_hwmon(names: &Vec<String>) -> (r: Option<usize>)
    ensures
        match r {
            Some(i) => i < names.len() && is_hwmon_name(names[i as int]@) && forall|j: int|
                0 <= j < i ==> !is_hwmon_name(#[trigger] names[j]@),
            None => forall|j: int| 0 <= j < names.len() ==> !is_hwmon_name(#[trigger] names[j]@),
        },
{
    let prefix = chars_of("hwmon");
    let mut i: usize = 0;
    while i < names.len()
        invariant
            i <= names.len(),
            prefix@ == "hwmon"@,
            forall|j: int| 0 <= j < i ==> !is_hwmon_name(#[trigger] names[j]@),
        decreases names.len() - i,
    {
        let v = chars_of(names[i].as_str());
        assert(v@.subrange(0, v.len() as int) =~= v@);
        if range_starts_with(&v, 0, v.len(), &prefix) {
            return Some(i);
        }
        i += 1;
    }
    None
}

// ---------------------------------------------------------------------------
// Sysfs readings
// ---------------------------------------------------------------------------

/// The unsigned integer a sysfs file holds.
pub open spec fn number_of(text: Seq<char>) -> Option<u64> {
    parse_u64(trim(text))
}

/// The unsigned integer in a sysfs file, when the file could be read.
pub open spec fn number_from_file(file: Option<String>) -> Option<u64> {
    match file {
        Some(text) => number_of(text@),
        None => None,
    }
}

/// Reads a single unsigned integer out of the text of a sysfs file.
pub fn read_number(text: &str) -> (r: Option<u64>)
    ensures
        r == number_of(text@),
{
    let v = chars_of(text);
    let n = v.len();
    assert(v@.subrange(0, n as int) =~= v@);
    let (a, b) = trim_range(&v, 0, n);
    parse_unsigned_range(&v, a, b, 10, u64::MAX)
}

fn read_number_file(file: &Option<String>) -> (r: Option<u64>)
    ensures
        r == number_from_file(*file),
{
    match file {
        Some(text) => read_number(text.as_str()),
        None => None,
    }
}

/// Whether a label file reads "edge".
pub open spec fn is_edge_label(label: Option<String>) -> bool {
    label matches Some(l) && trim(l@) == "edge"@
}

/// Finds the edge temperature sensor among the `temp<N>_label` files
/// (`labels[0]` is the text of `temp1_label`, when it could be read): the
/// number of the first labelled "edge", sensor 1 where none is. amdgpu
/// exposes edge, junction and memory sensors in no fixed order; the edge
/// reading is the one normally quoted as "the GPU temperature".
pub fn edge_sensor(labels: &Vec<Option<String>>) -> (r: usize)
    ensures
        match choose_first_edge(labels@) {
            Some(i) => r == i + 1,
            None => r == 1,
        },
{
    let edge = chars_of("edge");
    let mut i: usize = 0;
    while i < labels.len()
        invariant
            i <= labels.len(),
            edge@ == "edge"@,
            forall|j: int| 0 <= j < i ==> !is_edge_label(#[trigger] labels@[j]),
        decreases labels.len() - i,
    {
        match &labels[i] {
            Some(label) => {
                let v = chars_of(label.as_str());
                assert(v@.subrange(0, v.len() as int) =~= v@);
                let (a, b) = trim_range(&v, 0, v.len());
                if crate::text::range_equals(&v, a, b, &edge) {
                    proof {
                        lemma_choose_first_edge(labels@, i as int);
                    }
                    return i + 1;
                }
            },
            None => {},
        }
        i += 1;
    }
    proof {
        lemma_choose_first_edge_none(labels@);
    }
    1
}

/// The position of the first label that reads "edge".
pub open spec fn choose_first_edge(labels: Seq<Option<String>>) -> Option<int> {
    if exists|i: int| 0 <= i < labels.len() && #[trigger] is_edge_label(labels[i]) {
        Some(
            choose|i: int|
                0 <= i < labels.len() && is_edge_label(labels[i]) && forall|j: int|
                    0 <= j < i ==> !is_edge_label(#[trigger] labels[j]),
        )
    } else {
        None
    }
}

proof fn lemma_choose_first_edge(labels: Seq<Option<String>>, i: int)
    requires
        0 <= i < labels.len(),
        is_edge_label(labels[i]),
        forall|j: int| 0 <= j < i ==> !is_edge_label(#[trigger] labels[j]),
    ensures
        choose_first_edge(labels) == Some(i),
{
    let k = choose|k: int|
        0 <= k < labels.len() && is_edge_label(labels[k]) && forall|j: int|
            0 <= j < k ==> !is_edge_label(#[trigger] labels[j]);
    assert(0 <= k < labels.len() && is_edge_label(labels[k]) && forall|j: int|
        0 <= j < k ==> !is_edge_label(#[trigger] labels[j]));
    if k < i {
        assert(!is_edge_label(labels[k]));
    } else if k > i {
        assert(!is_edge_label(labels[i]));
    }
}

proof fn lemma_choose_first_edge_none(labels: Seq<Option<String>>)
    requires
        forall|j: int| 0 <= j < labels.len() ==> !is_edge_label(#[trigger] labels[j]),
    ensures
        choose_first_edge(labels) is None,
{
}

} // verus!

verus! {

/// The texts of a card's hwmon sensor files, each present when it could be
/// read.
pub struct HwmonFiles {
    /// The `temp<N>_input` file of the edge sensor (millidegrees Celsius)
    pub temperature: Option<String>,
    /// `power1_average` (microwatts), what amdgpu fills in
    pub power_average: Option<String>,
    /// `power1_input` (microwatts), all that some cards provide
    pub power_input: Option<String>,
    /// `freq1_input`, the shader clock (hertz)
    pub shader_clock: Option<String>,
}

/// The texts of the live-value files of a DRM card, each present when it
/// could be read.
pub struct SysfsFiles {
    /// `gpu_busy_percent`
    pub busy_percent: Option<String>,
    /// `mem_info_vram_total` (bytes)
    pub vram_total: Option<String>,
    /// `mem_info_vram_used` (bytes)
    pub vram_used: Option<String>,
    /// The sensor files, when the card publishes a hwmon directory
    pub hwmon: Option<HwmonFiles>,
}

/// The live readings of a DRM card, in the units the driver publishes
/// them in, except the clock, which is in megahertz.
#[derive(PartialEq, Eq, Structural)]
pub struct SysfsStats {
    pub utilization_percent: Option<u64>,
    pub memory_total: Option<u64>,
    pub memory_used: Option<u64>,
    pub temperature_millidegrees: Option<u64>,
    pub power_microwatts: Option<u64>,
    pub core_clock_mhz: Option<u32>,
}

/// A utilization, kept only inside its documented range of 0 to 100 percent.
pub open spec fn utilization_in_range(busy: Option<u64>) -> Option<u64> {
    match busy {
        Some(u) => if u <= 100 {
            Some(u)
        } else {
            None
        },
        None => None,
    }
}

/// The used video memory, kept only where it does not exceed the total.
pub open spec fn used_within_total(used: Option<u64>, total: Option<u64>) -> Option<u64> {
    match (used, total) {
        (Some(a), Some(b)) => if a <= b {
            Some(a)
        } else {
            None
        },
        _ => used,
    }
}

/// The readings a card's sysfs files give: each file's number, except that
/// a utilization above 100 percent and a used-memory figure above the total
/// are left out, as readings outside their documented ranges; the average
/// power, or the instantaneous one where the average is missing; the shader
/// clock cut down from hertz to whole megahertz. Without a hwmon directory
/// there is no temperature, power or clock.
pub open spec fn sysfs_stats_of(files: SysfsFiles) -> SysfsStats {
    SysfsStats {
        utilization_percent: utilization_in_range(number_from_file(files.busy_percent)),
        memory_total: number_from_file(files.vram_total),
        memory_used: used_within_total(
            number_from_file(files.vram_used),
            number_from_file(files.vram_total),
        ),
        temperature_millidegrees: match files.hwmon {
            Some(h) => number_from_file(h.temperature),
            None => None,
        },
        power_microwatts: match files.hwmon {
            Some(h) => match number_from_file(h.power_average) {
                Some(p) => Some(p),
                None => number_from_file(h.power_input),
            },
            None => None,
        },
        core_clock_mhz: match files.hwmon {
            Some(h) => match number_from_file(h.shader_clock) {
                Some(hz) => Some((hz / 1_000_000) as u32),
                None => None,
            },
            None => None,
        },
    }
}

/// Turns the live-value files a DRM card publishes into its readings.
pub fn read_sysfs_stats(files: &SysfsFiles) -> (r: SysfsStats)
    ensures
        r == sysfs_stats_of(*files),
{
    let utilization_percent = match read_number_file(&files.busy_percent) {
        Some(u) => if u <= 100 {
            Some(u)
        } else {
            None
        },
        None => None,
    };
    let memory_total = read_number_file(&files.vram_total);
    let memory_used = match (read_number_file(&files.vram_used), memory_total) {
        (Some(a), Some(b)) => if a <= b {
            Some(a)
        } else {
            None
        },
        (used, _) => used,
    };
    match &files.hwmon {
        None => SysfsStats {
            utilization_percent,
            memory_total,
            memory_used,
            temperature_millidegrees: None,
            power_microwatts: None,
            core_clock_mhz: None,
        },
        Some(h) => {
            let temperature_millidegrees = read_number_file(&h.temperature);
            let power_microwatts = match read_number_file(&h.power_average) {
                Some(p) => Some(p),
                None => read_number_file(&h.power_input),
            };
            let core_clock_mhz = match read_number_file(&h.shader_clock) {
                Some(hz) => Some((hz / 1_000_000) as u32),
                None => None,
            };
            SysfsStats {
                utilization_percent,
                memory_total,
                memory_used,
                temperature_millidegrees,
                power_microwatts,
                core_clock_mhz,
            }
        },
    }
}

// ---------------------------------------------------------------------------
// nvidia-smi
// ---------------------------------------------------------------------------

/// The comma-separated fields of a line, each trimmed.
pub open spec fn split_fields(line: Seq<char>) -> Seq<Seq<char>>
    decreases line.len(),
{
    match crate::text::first_index(line, ',') {
        Some(i) => {
            proof {
                crate::text::lemma_first_index(line, ',');
            }
            seq![trim(line.take(i))] + split_fields(line.skip(i + 1))
        },
        None => seq![trim(line)],
    }
}

/// One row of fields for every line that is not blank.
pub open spec fn rows_of_lines(lines: Seq<Seq<char>>) -> Seq<Seq<Seq<char>>>
    decreases lines.len(),
{
    if lines.len() == 0 {
        seq![]
    } else if crate::text::is_blank(lines[0]) {
        rows_of_lines(lines.drop_first())
    } else {
        seq![split_fields(lines[0])] + rows_of_lines(lines.drop_first())
    }
}

/// The rows of `nvidia-smi --format=csv,noheader,nounits` output.
pub open spec fn nvidia_rows_of(output: Seq<char>) -> Seq<Seq<Seq<char>>> {
    rows_of_lines(lines(output))
}

/// The character sequences of a row of strings.
pub open spec fn row_view(row: Vec<String>) -> Seq<Seq<char>> {
    row@.map_values(|s: String| s@)
}

/// The character sequences of rows of strings.
pub open spec fn rows_view(rows: Seq<Vec<String>>) -> Seq<Seq<Seq<char>>> {
    rows.map_values(|row: Vec<String>| row_view(row))
}

fn split_fields_range(text: &str, v: &Vec<char>, lo: usize, hi: usize) -> (r: Vec<String>)
    requires
        v@ == text@,
        lo <= hi <= v.len(),
    ensures
        row_view(r) == split_fields(v@.subrange(lo as int, hi as int)),
{
    let mut fields: Vec<String> = Vec::new();
    let mut pos = lo;
    loop
        invariant
            lo <= pos <= hi <= v.len(),
            v@ == text@,
            row_view(fields) + split_fields(v@.subrange(pos as int, hi as int)) == split_fields(
                v@.subrange(lo as int, hi as int),
            ),
        decreases hi - pos,
    {
        let ghost s = v@.subrange(pos as int, hi as int);
        proof {
            crate::text::lemma_first_index(s, ',');
        }
        match crate::text::find_char(v, pos, hi, ',') {
            Some(c) => {
                let (a, b) = trim_range(v, pos, c);
                let ghost old_fields = fields;
                fields.push(crate::text::string_of_range(text, v, a, b));
                proof {
                    let i = (c - pos) as int;
                    assert(s.take(i) =~= v@.subrange(pos as int, c as int));
                    assert(s.skip(i + 1) =~= v@.subrange(c + 1, hi as int));
                    assert(row_view(fields) =~= row_view(old_fields).push(
                        trim(v@.subrange(pos as int, c as int)),
                    ));
                    assert(row_view(fields) + split_fields(v@.subrange(c + 1, hi as int)) =~= row_view(
                        old_fields,
                    ) + split_fields(s));
                }
                pos = c + 1;
            },
            None => {
                let (a, b) = trim_range(v, pos, hi);
                let ghost old_fields = fields;
                fields.push(crate::text::string_of_range(text, v, a, b));
                proof {
                    assert(row_view(fields) =~= row_view(old_fields).push(trim(s)));
                    assert(row_view(fields) =~= row_view(old_fields) + split_fields(s));
                }
                return fields;
            },
        }
    }
}

/// Splits the output of `nvidia-smi --format=csv,noheader,nounits` into one
/// row of trimmed fields per GPU. Blank lines carry no GPU.
pub fn parse_nvidia_smi_output(output: &str) -> (r: Vec<Vec<String>>)
    ensures
        rows_view(r@) == nvidia_rows_of(output@),
{
    let v = chars_of(output);
    let n = v.len();
    assert(v@.subrange(0, n as int) =~= v@);
    let mut rows: Vec<Vec<String>> = Vec::new();
    let mut pos: usize = 0;
    assert(rows_view(rows@) + nvidia_rows_of(output@) =~= nvidia_rows_of(output@));
    while pos < n
        invariant
            pos <= n == v.len(),
            v@ == output@,
            rows_view(rows@) + rows_of_lines(lines(v@.subrange(pos as int, n as int)))
                == nvidia_rows_of(output@),
        decreases n - pos,
    {
        let (a, b, next) = next_line(&v, pos, n);
        let ghost line = v@.subrange(a as int, b as int);
        let ghost rest = lines(v@.subrange(next as int, n as int));
        assert((seq![line] + rest)[0] == line);
        assert((seq![line] + rest).drop_first() =~= rest);
        if !range_is_blank(&v, a, b) {
            let ghost old_rows = rows@;
            rows.push(split_fields_range(output, &v, a, b));
            proof {
                assert(rows_view(rows@) =~= rows_view(old_rows).push(split_fields(line)));
                assert(rows_view(rows@) + rows_of_lines(rest) =~= rows_view(old_rows) + (seq![
                    split_fields(line),
                ] + rows_of_lines(rest)));
            }
        }
        pos = next;
    }
    assert(v@.subrange(n as int, n as int) =~= Seq::<char>::empty());
    assert(rows_view(rows@) + Seq::<Seq<Seq<char>>>::empty() =~= rows_view(rows@));
    rows
}

/// The name of the card on an `nvidia-smi` row: its first field, or
/// "NVIDIA GPU" where that is missing or empty.
pub open spec fn nvidia_row_name(row: Seq<Seq<char>>) -> Seq<char> {
    if row.len() > 0 && row[0].len() > 0 {
        row[0]
    } else {
        "NVIDIA GPU"@
    }
}

/// Lists the NVIDIA GPUs on the rows `nvidia-smi` printed, one per row.
pub fn discover_nvidia_devices(rows: &Vec<Vec<String>>) -> (r: Vec<GpuDevice>)
    ensures
        r.len() == rows.len(),
        forall|i: int|
            0 <= i < rows.len() ==> {
                &&& (#[trigger] r[i]).name@ == nvidia_row_name(row_view(rows[i]))
                &&& r[i].vendor@ == "NVIDIA"@
                &&& r[i].source == (GpuSource::NvidiaSmi { index: i as usize })
            },
{
    let mut devices: Vec<GpuDevice> = Vec::new();
    let mut i: usize = 0;
    while i < rows.len()
        invariant
            i <= rows.len(),
            devices.len() == i,
            forall|k: int|
                0 <= k < i ==> {
                    &&& (#[trigger] devices[k]).name@ == nvidia_row_name(row_view(rows[k]))
                    &&& devices[k].vendor@ == "NVIDIA"@
                    &&& devices[k].source == (GpuSource::NvidiaSmi { index: k as usize })
                },
        decreases rows.len() - i,
    {
        let row = &rows[i];
        let name = if row.len() > 0 && row[0].as_str().unicode_len() > 0 {
            row[0].clone()
        } else {
            String::from_str("NVIDIA GPU")
        };
        devices.push(
            GpuDevice {
                name,
                vendor: String::from_str("NVIDIA"),
                source: GpuSource::NvidiaSmi { index: i },
            },
        );
        i += 1;
    }
    devices
}

} // verus!

verus! {

// ---------------------------------------------------------------------------
// DRM cards
// ---------------------------------------------------------------------------

/// The card number of a DRM class entry named "card<N>". Connector
/// directories share the prefix ("card1-DP-1"), so only names whose suffix
/// is a number are cards.
pub open spec fn card_number(name: Seq<char>) -> Option<u32> {
    if starts_with(name, seq!['c', 'a', 'r', 'd']) {
        crate::text::parse_u32(name.skip(4))
    } else {
        None
    }
}

/// The cards among the DRM class entries (name, path), in their order.
pub open spec fn card_candidates(entries: Seq<(String, String)>) -> Seq<(u32, String)>
    decreases entries.len(),
{
    if entries.len() == 0 {
        seq![]
    } else {
        let rest = card_candidates(entries.drop_last());
        match card_number(entries.last().0@) {
            Some(k) => rest.push((k, entries.last().1)),
            None => rest,
        }
    }
}

/// Whether the cards are in order of their numbers.
pub open spec fn sorted_by_number(cards: Seq<(u32, String)>) -> bool {
    forall|i: int, j: int| 0 <= i < j < cards.len() ==> #[trigger] cards[i].0 <= #[trigger] cards[j].0
}

/// The cards numbered `k`, in their order.
pub open spec fn numbered(cards: Seq<(u32, String)>, k: u32) -> Seq<(u32, String)> {
    cards.filter(|e: (u32, String)| e.0 == k)
}

proof fn lemma_numbered_none(s: Seq<(u32, String)>, k: u32)
    requires
        forall|i: int| 0 <= i < s.len() ==> (#[trigger] s[i]).0 != k,
    ensures
        numbered(s, k) == Seq::<(u32, String)>::empty(),
    decreases s.len(),
{
    reveal(Seq::filter);
    if s.len() > 0 {
        lemma_numbered_none(s.drop_last(), k);
    }
}

proof fn lemma_numbered_push(s: Seq<(u32, String)>, e: (u32, String), k: u32)
    ensures
        numbered(s.push(e), k) == if e.0 == k {
            numbered(s, k).push(e)
        } else {
            numbered(s, k)
        },
{
    reveal(Seq::filter);
    assert(s.push(e).drop_last() =~= s);
}

/// Inserting `e` after every element numbered at most `e.0` keeps `cards`
/// in order and adds `e` last among its number.
proof fn lemma_insert_card(cards: Seq<(u32, String)>, p: int, e: (u32, String))
    requires
        sorted_by_number(cards),
        0 <= p <= cards.len(),
        forall|i: int| 0 <= i < p ==> (#[trigger] cards[i]).0 <= e.0,
        forall|i: int| p <= i < cards.len() ==> (#[trigger] cards[i]).0 > e.0,
    ensures
        sorted_by_number(cards.insert(p, e)),
        forall|k: u32| #[trigger]
            numbered(cards.insert(p, e), k) == numbered(cards.push(e), k),
{
    let ins = cards.insert(p, e);
    assert forall|i: int, j: int| 0 <= i < j < ins.len() implies #[trigger] ins[i].0
        <= #[trigger] ins[j].0 by {
        if j < p {
            assert(ins[i] == cards[i] && ins[j] == cards[j]);
        } else if j == p {
            assert(ins[i] == cards[i]);
        } else if i < p {
            assert(ins[i] == cards[i] && ins[j] == cards[j - 1]);
        } else if i == p {
            assert(ins[j] == cards[j - 1]);
        } else {
            assert(ins[i] == cards[i - 1] && ins[j] == cards[j - 1]);
        }
    }
    let front = cards.take(p);
    let back = cards.skip(p);
    assert(ins =~= front + (seq![e] + back));
    assert(cards =~= front + back);
    assert forall|k: u32| #[trigger] numbered(ins, k) == numbered(cards.push(e), k) by {
        let pred = |x: (u32, String)| x.0 == k;
        Seq::filter_distributes_over_add(front, seq![e] + back, pred);
        Seq::filter_distributes_over_add(seq![e], back, pred);
        Seq::filter_distributes_over_add(front, back, pred);
        lemma_numbered_push(cards, e, k);
        lemma_numbered_push(Seq::<(u32, String)>::empty(), e, k);
        assert(Seq::<(u32, String)>::empty().push(e) =~= seq![e]);
        lemma_numbered_none(Seq::<(u32, String)>::empty(), k);
        if e.0 == k {
            assert forall|i: int| 0 <= i < back.len() implies (#[trigger] back[i]).0 != k by {
                assert(back[i] == cards[p + i]);
            }
            lemma_numbered_none(back, k);
            assert(numbered(back, k) + Seq::<(u32, String)>::empty() =~= numbered(back, k));
            assert(numbered(front, k) + (seq![e] + Seq::<(u32, String)>::empty()) =~= (
            numbered(front, k) + Seq::<(u32, String)>::empty()).push(e));
        } else {
            assert(Seq::<(u32, String)>::empty() + numbered(back, k) =~= numbered(back, k));
        }
    }
}

/// Picks the cards among the DRM class entries (name, path) and orders them
/// by card number. The kernel does not hand out card numbers in any
/// particular order, and directory listings are not sorted; entries with
/// equal numbers keep their order.
pub fn select_cards(entries: Vec<(String, String)>) -> (r: Vec<(u32, String)>)
    ensures
        sorted_by_number(r@),
        forall|k: u32| #[trigger] numbered(r@, k) == numbered(card_candidates(entries@), k),
{
    let prefix = vec!['c', 'a', 'r', 'd'];
    assert(prefix@ =~= seq!['c', 'a', 'r', 'd']);
    let mut cards: Vec<(u32, String)> = Vec::new();
    let mut rest = entries;
    let ghost all = rest@;
    assert(all.len() == rest.len());
    assert(all.skip(0) =~= all);
    assert(all.take(0) =~= Seq::<(String, String)>::empty());
    let mut i: usize = 0;
    while rest.len() > 0
        invariant
            prefix@ == seq!['c', 'a', 'r', 'd'],
            i + rest.len() == all.len(),
            all.len() <= usize::MAX,
            rest@ == all.skip(i as int),
            sorted_by_number(cards@),
            forall|k: u32| #[trigger]
                numbered(cards@, k) == numbered(card_candidates(all.take(i as int)), k),
        decreases rest.len(),
    {
        let ghost old_rest = rest@;
        let (name, path) = rest.remove(0);
        assert(rest@ =~= all.skip(i + 1));
        assert((name, path) == all[i as int]);
        let ghost taken = all.take(i + 1);
        assert(taken.drop_last() =~= all.take(i as int));
        let v = chars_of(name.as_str());
        let n = v.len();
        assert(v@.subrange(0, n as int) =~= v@);
        let number = if range_starts_with(&v, 0, n, &prefix) {
            assert(v@.skip(4) =~= v@.subrange(4, n as int));
            match parse_unsigned_range(&v, 4, n, 10, 0xffff_ffff) {
                Some(k) => Some(k as u32),
                None => None,
            }
        } else {
            None
        };
        assert(number == card_number(name@));
        match number {
            Some(k) => {
                let mut p: usize = 0;
                while p < cards.len() && cards[p].0 <= k
                    invariant
                        p <= cards.len(),
                        forall|j: int| 0 <= j < p ==> (#[trigger] cards@[j]).0 <= k,
                    decreases cards.len() - p,
                {
                    p += 1;
                }
                proof {
                    assert forall|j: int| p <= j < cards.len() implies (#[trigger] cards@[j]).0
                        > k by {
                        assert(cards@[p as int].0 > k);
                        assert(cards@[p as int].0 <= cards@[j].0);
                    }
                    lemma_insert_card(cards@, p as int, (k, path));
                    assert forall|kk: u32| #[trigger]
                        numbered(cards@.push((k, path)), kk) == numbered(
                            card_candidates(taken),
                            kk,
                        ) by {
                        lemma_numbered_push(cards@, (k, path), kk);
                        lemma_numbered_push(card_candidates(all.take(i as int)), (k, path), kk);
                    }
                }
                cards.insert(p, (k, path));
            },
            None => {},
        }
        i += 1;
    }
    assert(all.take(i as int) =~= all);
    cards
}

} // verus!

verus! {

// ---------------------------------------------------------------------------
// The monitor
// ---------------------------------------------------------------------------

/// Whether any of the devices is read through `nvidia-smi`.
pub open spec fn reads_nvidia_smi(devices: Seq<GpuDevice>) -> bool {
    exists|i: int| 0 <= i < devices.len() && #[trigger] devices[i].source is NvidiaSmi
}

/// Monitors the GPUs installed in the machine.
pub struct GpuMonitor {
    /// Cards found at start-up; GPUs are not hot-plugged, so we only look once
    devices: Vec<GpuDevice>,
    /// Whether any card is read through `nvidia-smi`
    uses_nvidia_smi: bool,
}

/// The values read for a card in one refresh.
pub enum GpuValues {
    /// The readings of a card read through sysfs
    Sysfs(SysfsStats),
    /// The `nvidia-smi` row of a card read through it
    Nvidia(Vec<String>),
}

/// One card's name and the values read for it in one refresh.
pub struct GpuReading {
    pub name: String,
    pub vendor: String,
    pub values: GpuValues,
}

/// Whether `reading` is what a refresh gives for `device`, given the rows
/// `nvidia-smi` printed and the files of a sysfs card.
pub open spec fn reading_of(
    device: GpuDevice,
    rows: Seq<Vec<String>>,
    files: SysfsFiles,
    reading: GpuReading,
) -> bool {
    &&& reading.name@ == device.name@
    &&& reading.vendor@ == device.vendor@
    &&& match device.source {
        GpuSource::Sysfs { .. } => reading.values == GpuValues::Sysfs(sysfs_stats_of(files)),
        GpuSource::NvidiaSmi { index } => match reading.values {
            GpuValues::Nvidia(row) => index < rows.len() && row_view(row) == row_view(
                rows[index as int],
            ),
            _ => false,
        },
    }
}

/// The live-value files of card `i`, none where they were not given.
pub open spec fn files_for(files: Seq<SysfsFiles>, i: int) -> SysfsFiles {
    if 0 <= i < files.len() {
        files[i]
    } else {
        SysfsFiles { busy_percent: None, vram_total: None, vram_used: None, hwmon: None }
    }
}

/// Whether a card reports anything this refresh. A card read through sysfs
/// does when its readings hold a utilization or a memory total; a card read
/// through `nvidia-smi` does when `nvidia-smi` printed a row for it, the
/// row's values being read by the caller.
pub open spec fn reports_something(
    device: GpuDevice,
    rows: Seq<Vec<String>>,
    files: SysfsFiles,
) -> bool {
    match device.source {
        GpuSource::Sysfs { .. } => {
            let stats = sysfs_stats_of(files);
            stats.utilization_percent is Some || stats.memory_total is Some
        },
        GpuSource::NvidiaSmi { index } => index < rows.len(),
    }
}

/// The positions, in order, of the first `n` cards that report something.
pub open spec fn listed_cards(
    devices: Seq<GpuDevice>,
    rows: Seq<Vec<String>>,
    files: Seq<SysfsFiles>,
    n: nat,
) -> Seq<int>
    decreases n,
{
    if n == 0 {
        seq![]
    } else {
        let rest = listed_cards(devices, rows, files, (n - 1) as nat);
        if reports_something(devices[n - 1], rows, files_for(files, n - 1)) {
            rest.push(n - 1)
        } else {
            rest
        }
    }
}

/// Whether a reading carries anything: a utilization or a memory total
/// for a sysfs card, a row for a card read through `nvidia-smi`.
pub open spec fn reading_reports(reading: GpuReading) -> bool {
    match reading.values {
        GpuValues::Sysfs(stats) => stats.utilization_percent is Some || stats.memory_total is Some,
        GpuValues::Nvidia(_) => true,
    }
}

/// Whether a sysfs reading stays inside its documented ranges: utilization
/// at most 100 percent, used memory at most the total.
pub open spec fn reading_in_range(reading: GpuReading) -> bool {
    match reading.values {
        GpuValues::Sysfs(stats) => {
            &&& stats.utilization_percent matches Some(u) ==> u <= 100
            &&& stats.memory_used matches Some(used) ==> (stats.memory_total matches Some(total)
                ==> used <= total)
        },
        GpuValues::Nvidia(_) => true,
    }
}

fn copy_string(s: &String) -> (r: String)
    ensures
        r@ == s@,
{
    s.clone()
}

fn copy_row(row: &Vec<String>) -> (r: Vec<String>)
    ensures
        row_view(r) == row_view(*row),
{
    let mut r: Vec<String> = Vec::new();
    let mut i: usize = 0;
    while i < row.len()
        invariant
            i <= row.len(),
            r.len() == i,
            forall|k: int| 0 <= k < i ==> (#[trigger] r@[k])@ == row@[k]@,
        decreases row.len() - i,
    {
        r.push(copy_string(&row[i]));
        i += 1;
    }
    assert(row_view(r) =~= row_view(*row));
    r
}

impl GpuMonitor {
    #[verifier::type_invariant]
    spec fn well_formed(self) -> bool {
        self.uses_nvidia_smi == reads_nvidia_smi(self.devices@)
    }

    /// The cards being monitored.
    pub closed spec fn spec_devices(self) -> Seq<GpuDevice> {
        self.devices@
    }

    /// Puts together the monitor for the cards found at start-up: the DRM
    /// cards, then those `nvidia-smi` lists.
    pub fn new(sysfs_devices: Vec<GpuDevice>, nvidia_devices: Vec<GpuDevice>) -> (m: Self)
        ensures
            m.spec_devices() == sysfs_devices@ + nvidia_devices@,
    {
        let mut devices = sysfs_devices;
        let mut more = nvidia_devices;
        let ghost expected = devices@ + more@;
        devices.append(&mut more);
        let mut uses_nvidia_smi = false;
        let mut i: usize = 0;
        while i < devices.len()
            invariant
                i <= devices.len(),
                uses_nvidia_smi == (exists|j: int|
                    0 <= j < i && #[trigger] devices@[j].source is NvidiaSmi),
            decreases devices.len() - i,
        {
            if let GpuSource::NvidiaSmi { .. } = devices[i].source {
                uses_nvidia_smi = true;
            }
            i += 1;
        }
        GpuMonitor { devices, uses_nvidia_smi }
    }

    /// The cards being monitored.
    pub fn devices(&self) -> (r: &Vec<GpuDevice>)
        ensures
            r@ == self.spec_devices(),
    {
        &self.devices
    }

    /// Whether a refresh needs the output of `nvidia-smi`: whether any card
    /// is read through it. `nvidia-smi` reports every card at once, so it is
    /// run a single time per refresh rather than once per card.
    pub fn uses_nvidia_smi(&self) -> (b: bool)
        ensures
            b == reads_nvidia_smi(self.spec_devices()),
    {
        proof {
            use_type_invariant(self);
        }
        self.uses_nvidia_smi
    }

    /// Puts together the current readings of the GPUs, in the order of the
    /// cards: `nvidia_rows` is what `nvidia-smi` printed this refresh
    /// (nothing when it was not run), and `sysfs_files[i]` the live-value
    /// files of card `i` when it is read through sysfs. A sysfs card that
    /// reports neither a utilization nor a memory total this refresh is left
    /// out, as is one whose files were not given, and so is a card read
    /// through `nvidia-smi` that has no row this refresh. Every reading kept
    /// stays inside its documented range, and names are copied from the
    /// cards.
    pub fn collect(&self, nvidia_rows: &Vec<Vec<String>>, sysfs_files: &Vec<SysfsFiles>) -> (r:
        Vec<GpuReading>)
        ensures
            r.len() == listed_cards(
                self.spec_devices(),
                nvidia_rows@,
                sysfs_files@,
                self.spec_devices().len(),
            ).len(),
            forall|k: int|
                0 <= k < r.len() ==> {
                    let i = listed_cards(
                        self.spec_devices(),
                        nvidia_rows@,
                        sysfs_files@,
                        self.spec_devices().len(),
                    )[k];
                    reading_of(
                        self.spec_devices()[i],
                        nvidia_rows@,
                        files_for(sysfs_files@, i),
                        #[trigger] r@[k],
                    )
                },
            forall|k: int| 0 <= k < r.len() ==> reading_reports(#[trigger] r@[k]),
            forall|k: int| 0 <= k < r.len() ==> reading_in_range(#[trigger] r@[k]),
            (forall|i: int|
                0 <= i < self.spec_devices().len() ==> (#[trigger] self.spec_devices()[i]).name@.len()
                    > 0) ==> forall|k: int| 0 <= k < r.len() ==> (#[trigger] r@[k]).name@.len() > 0,
    {
        let mut readings: Vec<GpuReading> = Vec::new();
        let mut i: usize = 0;
        while i < self.devices.len()
            invariant
                i <= self.devices.len(),
                readings.len() == listed_cards(self.devices@, nvidia_rows@, sysfs_files@, i as nat).len(),
                forall|k: int|
                    0 <= k < readings.len() ==> {
                        let j = listed_cards(self.devices@, nvidia_rows@, sysfs_files@, i as nat)[k];
                        reading_of(
                            self.devices@[j],
                            nvidia_rows@,
                            files_for(sysfs_files@, j),
                            #[trigger] readings@[k],
                        )
                    },
                forall|k: int| 0 <= k < readings.len() ==> reading_reports(#[trigger] readings@[k]),
                forall|k: int| 0 <= k < readings.len() ==> reading_in_range(#[trigger] readings@[k]),
                forall|k: int|
                    0 <= k < readings.len() ==> 0 <= #[trigger] listed_cards(
                        self.devices@,
                        nvidia_rows@,
                        sysfs_files@,
                        i as nat,
                    )[k] < i,
            decreases self.devices.len() - i,
        {
            let ghost before = listed_cards(self.devices@, nvidia_rows@, sysfs_files@, i as nat);
            let ghost after = listed_cards(self.devices@, nvidia_rows@, sysfs_files@, (i + 1) as nat);
            assert((i + 1) as nat - 1 == i);
            let device = &self.devices[i];
            let values = match &device.source {
                GpuSource::Sysfs { .. } => {
                    if i < sysfs_files.len() {
                        let stats = read_sysfs_stats(&sysfs_files[i]);
                        proof {
                            law_sysfs_readings_in_range(sysfs_files@[i as int]);
                        }
                        if stats.utilization_percent.is_some() || stats.memory_total.is_some() {
                            Some(GpuValues::Sysfs(stats))
                        } else {
                            None
                        }
                    } else {
                        None
                    }
                },
                GpuSource::NvidiaSmi { index } => {
                    if *index < nvidia_rows.len() {
                        Some(GpuValues::Nvidia(copy_row(&nvidia_rows[*index])))
                    } else {
                        None
                    }
                },
            };
            match values {
                Some(values) => {
                    assert(after == before.push(i as int));
                    readings.push(
                        GpuReading {
                            name: copy_string(&device.name),
                            vendor: copy_string(&device.vendor),
                            values,
                        },
                    );
                    assert forall|k: int| 0 <= k < readings.len() implies {
                        let j = after[k];
                        reading_of(
                            self.devices@[j],
                            nvidia_rows@,
                            files_for(sysfs_files@, j),
                            #[trigger] readings@[k],
                        )
                    } by {
                        if k < before.len() {
                            assert(after[k] == before[k]);
                        }
                    }
                    assert forall|k: int| 0 <= k < readings.len() implies 0 <= #[trigger] after[k]
                        < i + 1 by {
                        if k < before.len() {
                            assert(after[k] == before[k]);
                        }
                    }
                },
                None => {
                    assert(after == before);
                },
            }
            i += 1;
        }
        readings
    }
}

} // verus!

verus! {

/// A refresh lists exactly the cards that report something, each once and
/// in the order of the cards.
pub proof fn law_listed_cards_are_those_reporting(
    devices: Seq<GpuDevice>,
    rows: Seq<Vec<String>>,
    files: Seq<SysfsFiles>,
    n: nat,
)
    requires
        n <= devices.len(),
    ensures
        forall|a: int, b: int|
            0 <= a < b < listed_cards(devices, rows, files, n).len() ==> #[trigger] listed_cards(
                devices,
                rows,
                files,
                n,
            )[a] < #[trigger] listed_cards(devices, rows, files, n)[b],
        forall|i: int|
            0 <= i < n ==> (listed_cards(devices, rows, files, n).contains(i) <==> reports_something(
                #[trigger] devices[i],
                rows,
                files_for(files, i),
            )),
        forall|k: int|
            0 <= k < listed_cards(devices, rows, files, n).len() ==> 0 <= #[trigger] listed_cards(
                devices,
                rows,
                files,
                n,
            )[k] < n,
    decreases n,
{
    if n > 0 {
        let m = (n - 1) as nat;
        law_listed_cards_are_those_reporting(devices, rows, files, m);
        let rest = listed_cards(devices, rows, files, m);
        let all = listed_cards(devices, rows, files, n);
        assert forall|i: int| 0 <= i < n implies (all.contains(i) <==> reports_something(
            #[trigger] devices[i],
            rows,
            files_for(files, i),
        )) by {
            if i < m {
                if all.contains(i) {
                    let k = choose|k: int| 0 <= k < all.len() && all[k] == i;
                    if k < rest.len() {
                        assert(rest[k] == i);
                    }
                }
                if rest.contains(i) {
                    let k = choose|k: int| 0 <= k < rest.len() && rest[k] == i;
                    assert(all[k] == i);
                }
            } else {
                if all.contains(i) {
                    let k = choose|k: int| 0 <= k < all.len() && all[k] == i;
                    if k < rest.len() {
                        assert(rest[k] < m);
                    }
                }
                if reports_something(devices[i], rows, files_for(files, i)) {
                    assert(all[all.len() - 1] == i);
                }
            }
        }
    }
}

/// When every card reports something, a refresh lists every card, in the
/// order of the cards: one reading per card.
pub proof fn law_every_reporting_card_is_listed(
    devices: Seq<GpuDevice>,
    rows: Seq<Vec<String>>,
    files: Seq<SysfsFiles>,
    n: nat,
)
    requires
        n <= devices.len(),
        forall|i: int| 0 <= i < n ==> reports_something(#[trigger] devices[i], rows, files_for(files, i)),
    ensures
        listed_cards(devices, rows, files, n) == Seq::new(n, |i: int| i),
    decreases n,
{
    if n > 0 {
        law_every_reporting_card_is_listed(devices, rows, files, (n - 1) as nat);
        assert(reports_something(devices[n - 1], rows, files_for(files, n - 1)));
        assert(listed_cards(devices, rows, files, n) =~= Seq::new(n, |i: int| i));
    }
}

/// The name shown for a card is never empty, except where the PCI id
/// database itself gives the device a blank name.
pub proof fn law_display_name_is_not_empty(
    vendor_id: Option<u16>,
    device_id: Option<u16>,
    database: Option<Seq<char>>,
)
    requires
        forall|db: Seq<char>, v: u16, d: u16|
            database == Some(db) && vendor_id == Some(v) && device_id == Some(d)
                ==> pci_model_name(db, v, d) != Some(Seq::<char>::empty()),
    ensures
        device_display_name(vendor_id, device_id, database).len() > 0,
{
    reveal_strlit("Unknown GPU");
    match (vendor_id, device_id) {
        (Some(v), Some(d)) => {
            match database {
                Some(db) => {
                    match pci_model_name(db, v, d) {
                        Some(name) => {
                            if name.len() == 0 {
                                assert(name =~= Seq::<char>::empty());
                            }
                        },
                        None => {},
                    }
                },
                None => {},
            }
        },
        _ => {},
    }
}

/// A card found through `nvidia-smi` always has a name.
pub proof fn law_nvidia_name_is_not_empty(row: Seq<Seq<char>>)
    ensures
        nvidia_row_name(row).len() > 0,
{
    reveal_strlit("NVIDIA GPU");
}

} // verus!

verus! {

/// The readings of a sysfs card stay inside their documented ranges: a
/// utilization is at most 100 percent, and used memory never exceeds the
/// total.
pub proof fn law_sysfs_readings_in_range(files: SysfsFiles)
    ensures
        sysfs_stats_of(files).utilization_percent matches Some(u) ==> u <= 100,
        sysfs_stats_of(files).memory_used matches Some(used) ==> (sysfs_stats_of(
            files,
        ).memory_total matches Some(total) ==> used <= total),
{
}

} // verus!

verus! {

/// A utilization the busy-percent file gives inside 0 to 100 percent, an
/// idle 0 included, is reported as it is read.
pub proof fn law_utilization_in_range_is_reported(files: SysfsFiles, u: u64)
    requires
        number_from_file(files.busy_percent) == Some(u),
        u <= 100,
    ensures
        sysfs_stats_of(files).utilization_percent == Some(u),
{
}

/// Memory figures the files give are reported as read, the used figure
/// whenever it does not exceed the total.
pub proof fn law_memory_in_range_is_reported(files: SysfsFiles, used: u64, total: u64)
    requires
        number_from_file(files.vram_used) == Some(used),
        number_from_file(files.vram_total) == Some(total),
        used <= total,
    ensures
        sysfs_stats_of(files).memory_used == Some(used),
        sysfs_stats_of(files).memory_total == Some(total),
{
}

} // verus!
