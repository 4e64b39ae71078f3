//! Reading the Linux host description out of what `/proc` and `/sys` hold.
//! The files are read outside the library; these functions decide what
//! their contents say.
use vstd::prelude::*;
use crate::model::{AcceleratorInfo, AcceleratorKind, MemoryInfo};
use crate::text::{
    all_digits, chars_of, has_prefix, nonempty_trimmed, opt_text, parse_decimal, parse_unsigned,
    same_text, split_lines, trim, trim_bounds, trimmed_value, find_first, line_bounds, find_char,
    string_from_chars, span_is, strip_char, strip_char_bounds, first_word, first_word_bounds,
    decimal, is_white_space, is_digit, lemma_decimal_digits, lemma_find_first_is, lemma_first_word_of,
    law_decimal_parses_back,
};

verus! {

/// Whether a `/sys/class/drm` entry names a whole card: `card` followed by
/// one or more ASCII digits (not a connector such as `card0-DP-1`).
pub open spec fn spec_is_primary_card_name(name: Seq<char>) -> bool {
    name.len() > 4 && has_prefix(name, "card"@) && all_digits(name.skip(4))
}

/// Tests a DRM entry name (see [`spec_is_primary_card_name`]).
pub fn is_primary_card_name(name: &str) -> (r: bool)
    ensures
        r == spec_is_primary_card_name(name@),
{
    let cs = chars_of(name);
    proof {
        reveal_strlit("card");
    }
    if cs.len() <= 4 {
        return false;
    }
    if !(cs[0] == 'c' && cs[1] == 'a' && cs[2] == 'r' && cs[3] == 'd') {
        proof {
            assert(!has_prefix(name@, "card"@)) by {
                if has_prefix(name@, "card"@) {
                    assert(cs@.subrange(0, 4)[0] == cs@[0]);
                    assert(cs@.subrange(0, 4)[1] == cs@[1]);
                    assert(cs@.subrange(0, 4)[2] == cs@[2]);
                    assert(cs@.subrange(0, 4)[3] == cs@[3]);
                }
            }
        }
        return false;
    }
    proof {
        assert(cs@.subrange(0, 4) =~= "card"@);
    }
    let mut i: usize = 4;
    while i < cs.len()
        invariant
            4 <= i <= cs@.len(),
            cs@ == name@,
            forall|j: int| 4 <= j < i ==> '0' <= #[trigger] cs@[j] && cs@[j] <= '9',
        decreases cs@.len() - i,
    {
        if !('0' <= cs[i] && cs[i] <= '9') {
            proof {
                assert(cs@.skip(4)[i - 4] == cs@[i as int]);
            }
            return false;
        }
        i = i + 1;
    }
    proof {
        assert forall|j: int| 0 <= j < cs@.skip(4).len() implies crate::text::is_digit(
            #[trigger] cs@.skip(4)[j],
        ) by {
            assert(cs@.skip(4)[j] == cs@[j + 4]);
        }
    }
    true
}

/// The vendor that a PCI vendor id names.
pub open spec fn spec_vendor_name(vendor_id: Seq<char>) -> Seq<char> {
    if vendor_id == "0x10de"@ {
        "NVIDIA"@
    } else if vendor_id == "0x1002"@ {
        "AMD"@
    } else if vendor_id == "0x8086"@ {
        "Intel"@
    } else if vendor_id == "0x106b"@ {
        "Apple"@
    } else if vendor_id == "0x17cb"@ {
        "Qualcomm"@
    } else {
        "Unknown"@
    }
}

/// Names the vendor of a PCI vendor id.
pub fn vendor_name(vendor_id: &str) -> (r: &'static str)
    ensures
        r@ == spec_vendor_name(vendor_id@),
{
    if same_text(vendor_id, "0x10de") {
        "NVIDIA"
    } else if same_text(vendor_id, "0x1002") {
        "AMD"
    } else if same_text(vendor_id, "0x8086") {
        "Intel"
    } else if same_text(vendor_id, "0x106b") {
        "Apple"
    } else if same_text(vendor_id, "0x17cb") {
        "Qualcomm"
    } else {
        "Unknown"
    }
}

/// The number that a one-value file holds, if its trimmed contents are a
/// `u64`.
pub open spec fn file_number(contents: Option<Seq<char>>) -> Option<nat> {
    match nonempty_trimmed(contents) {
        Some(t) => parse_unsigned(t, u64::MAX as nat),
        None => None,
    }
}

/// Reads the number a one-value file holds.
pub fn file_number_value(contents: &Option<String>) -> (r: Option<u64>)
    ensures
        match file_number(opt_text(*contents)) {
            Some(v) => r == Some(v as u64),
            None => r is None,
        },
{
    match trimmed_value(contents) {
        Some(t) => crate::text::parse_u64(t.as_str()),
        None => None,
    }
}

/// The dedicated video memory: `mem_info_vram_total`, or else
/// `mem_info_vis_vram_total`, whichever first holds a number.
pub open spec fn spec_vram_total(vram_total: Option<Seq<char>>, visible_vram_total: Option<Seq<char>>) -> Option<nat> {
    match file_number(vram_total) {
        Some(v) => Some(v),
        None => file_number(visible_vram_total),
    }
}

/// Reads the dedicated video memory from the contents of the two sysfs
/// files (`None` where a file could not be read).
pub fn read_vram_total(vram_total: &Option<String>, visible_vram_total: &Option<String>) -> (r: Option<u64>)
    ensures
        match spec_vram_total(opt_text(*vram_total), opt_text(*visible_vram_total)) {
            Some(v) => r == Some(v as u64),
            None => r is None,
        },
{
    match file_number_value(vram_total) {
        Some(v) => Some(v),
        None => file_number_value(visible_vram_total),
    }
}

/// Where a vendor's free video memory is read from.
#[derive(Debug, Clone, Copy, PartialEq, Eq, Structural)]
pub enum VramSource {
    /// AMD: `mem_info_vram_used` beside the total.
    AmdSysfs,
    /// NVIDIA: the `nvidia-smi` memory query.
    NvidiaSmi,
    /// No source is known.
    Unavailable,
}

/// The source of free video memory for a vendor id.
pub open spec fn spec_vram_source(vendor_id: Seq<char>) -> VramSource {
    if vendor_id == "0x1002"@ {
        VramSource::AmdSysfs
    } else if vendor_id == "0x10de"@ {
        VramSource::NvidiaSmi
    } else {
        VramSource::Unavailable
    }
}

/// Decides where free video memory is read from.
pub fn vram_source(vendor_id: &str) -> (r: VramSource)
    ensures
        r == spec_vram_source(vendor_id@),
{
    if same_text(vendor_id, "0x1002") {
        VramSource::AmdSysfs
    } else if same_text(vendor_id, "0x10de") {
        VramSource::NvidiaSmi
    } else {
        VramSource::Unavailable
    }
}

/// The free bytes that `nvidia-smi --query-gpu=memory.free` reports on its
/// first line, in MiB; nothing when that is no `u64` or the bytes overflow.
pub open spec fn spec_nvidia_free_bytes(output: Seq<char>) -> Option<nat> {
    let first = output.subrange(0, find_first(output, '\n'));
    match parse_unsigned(trim(first), u64::MAX as nat) {
        Some(mib) => if mib * 1048576 <= u64::MAX {
            Some(mib * 1048576)
        } else {
            None
        },
        None => None,
    }
}

/// Reads the free video memory from `nvidia-smi` output.
pub fn nvidia_free_bytes(output: &str) -> (r: Option<u64>)
    ensures
        match spec_nvidia_free_bytes(output@) {
            Some(v) => r == Some(v as u64),
            None => r is None,
        },
{
    let cs = chars_of(output);
    let end = find_char(&cs, 0, cs.len(), '\n');
    proof {
        assert(cs@.subrange(0, cs@.len() as int) =~= cs@);
    }
    let (from, to) = trim_bounds(&cs, 0, end);
    match parse_decimal(&cs, from, to, u64::MAX) {
        Some(mib) => mib.checked_mul(1048576),
        None => None,
    }
}

/// The free video memory: for AMD the total less what is used (at least
/// zero), for NVIDIA what `nvidia-smi` reports.
pub open spec fn spec_available_vram(
    vendor_id: Seq<char>,
    total: Option<u64>,
    vram_used: Option<Seq<char>>,
    nvidia_free: Option<u64>,
) -> Option<u64> {
    match spec_vram_source(vendor_id) {
        VramSource::AmdSysfs => match total {
            Some(t) => match file_number(vram_used) {
                Some(used) => Some(if used >= t { 0u64 } else { (t - used) as u64 }),
                None => None,
            },
            None => None,
        },
        VramSource::NvidiaSmi => nvidia_free,
        VramSource::Unavailable => None,
    }
}

/// Decides the free video memory of a card.
pub fn read_available_vram(
    vendor_id: &str,
    total: Option<u64>,
    vram_used: &Option<String>,
    nvidia_free: Option<u64>,
) -> (r: Option<u64>)
    ensures
        r == spec_available_vram(vendor_id@, total, opt_text(*vram_used), nvidia_free),
{
    match vram_source(vendor_id) {
        VramSource::AmdSysfs => match total {
            Some(t) => match file_number_value(vram_used) {
                Some(used) => Some(t.saturating_sub(used)),
                None => None,
            },
            None => None,
        },
        VramSource::NvidiaSmi => nvidia_free,
        VramSource::Unavailable => None,
    }
}

/// The free video memory of an AMD card never exceeds its total.
pub proof fn law_amd_free_memory_within_total(total: u64, vram_used: Option<Seq<char>>)
    ensures
        spec_available_vram("0x1002"@, Some(total), vram_used, None) matches Some(free) ==> free <= total,
{
}

/// What was read about one DRM card (`None` where a file could not be read).
#[derive(Debug)]
pub struct CardReadings {
    /// The entry name, such as `card0`.
    pub card_name: String,
    /// `device/vendor`.
    pub vendor: Option<String>,
    /// `device/device`.
    pub device: Option<String>,
    /// The name of the kernel driver bound to the device.
    pub driver: Option<String>,
    /// `device/boot_vga`.
    pub boot_vga: Option<String>,
    /// `device/mem_info_vram_total`.
    pub vram_total: Option<String>,
    /// `device/mem_info_vis_vram_total`.
    pub visible_vram_total: Option<String>,
    /// `device/mem_info_vram_used`.
    pub vram_used: Option<String>,
    /// Free memory from `nvidia-smi`, when it was queried and answered.
    pub nvidia_free_bytes: Option<u64>,
    /// Whether the vendor's telemetry interface answered.
    pub telemetry_probe: bool,
}

/// A trimmed value, or the empty text.
pub open spec fn trimmed_or_empty(contents: Option<Seq<char>>) -> Seq<char> {
    match nonempty_trimmed(contents) {
        Some(t) => t,
        None => seq![],
    }
}

/// The vendor id of a card.
pub open spec fn card_vendor_id(card: CardReadings) -> Seq<char> {
    trimmed_or_empty(opt_text(card.vendor))
}

/// The kind of a card: a discrete GPU when the vendor is NVIDIA or the card
/// is not the boot display device, an integrated GPU otherwise.
pub open spec fn card_kind(card: CardReadings) -> AcceleratorKind {
    let boot_vga = nonempty_trimmed(opt_text(card.boot_vga)) == Some("1"@);
    if card_vendor_id(card) == "0x10de"@ || !boot_vga {
        AcceleratorKind::DiscreteGpu
    } else {
        AcceleratorKind::IntegratedGpu
    }
}

/// The name of a card: `<vendor> GPU <device id>`, followed by
/// ` (<driver>)` when the driver is known.
pub open spec fn card_name(card: CardReadings) -> Seq<char> {
    let base = spec_vendor_name(card_vendor_id(card)) + " GPU "@ + trimmed_or_empty(opt_text(card.device));
    match card.driver {
        Some(d) => base + " ("@ + d@ + ")"@,
        None => base,
    }
}

/// The dedicated video memory of a card.
pub open spec fn card_total(card: CardReadings) -> Option<u64> {
    match spec_vram_total(opt_text(card.vram_total), opt_text(card.visible_vram_total)) {
        Some(v) => Some(v as u64),
        None => None,
    }
}

/// The free video memory of a card.
pub open spec fn card_available(card: CardReadings) -> Option<u64> {
    spec_available_vram(card_vendor_id(card), card_total(card), opt_text(card.vram_used), card.nvidia_free_bytes)
}

/// Whether `a` is the accelerator that `card` describes.
pub open spec fn describes_card(a: AcceleratorInfo, card: CardReadings) -> bool {
    &&& a.kind == card_kind(card)
    &&& a.name@ == card_name(card)
    &&& a.vendor@ == spec_vendor_name(card_vendor_id(card))
    &&& a.device_path matches Some(p) && p@ == "/sys/class/drm/"@ + card.card_name@
    &&& a.dedicated_memory_bytes == card_total(card)
    &&& a.available_memory_bytes == card_available(card)
    &&& a.telemetry_available == (card_available(card) is Some || card.telemetry_probe)
}

/// A card's dedicated memory is the number in `mem_info_vram_total`; only
/// when that file holds no number is `mem_info_vis_vram_total` (the window
/// the CPU sees) used. An AMD card's free memory is that total less
/// `mem_info_vram_used` (zero when more is used), an NVIDIA card's is what
/// `nvidia-smi` reported, and other vendors' is unknown.
pub proof fn law_card_memory(a: AcceleratorInfo, card: CardReadings)
    requires
        describes_card(a, card),
    ensures
        file_number(opt_text(card.vram_total)) matches Some(v) ==> a.dedicated_memory_bytes == Some(v as u64),
        file_number(opt_text(card.vram_total)) is None ==> a.dedicated_memory_bytes == match file_number(
            opt_text(card.visible_vram_total),
        ) {
            Some(v) => Some(v as u64),
            None => None::<u64>,
        },
        card_vendor_id(card) == "0x1002"@ ==> match (a.dedicated_memory_bytes, file_number(opt_text(card.vram_used))) {
            (Some(total), Some(used)) => a.available_memory_bytes == Some(
                if used >= total { 0u64 } else { (total - used) as u64 },
            ),
            _ => a.available_memory_bytes is None,
        },
        card_vendor_id(card) == "0x10de"@ ==> a.available_memory_bytes == card.nvidia_free_bytes,
        card_vendor_id(card) != "0x1002"@ && card_vendor_id(card) != "0x10de"@ ==> a.available_memory_bytes is None,
        card_vendor_id(card) == "0x1002"@ ==> (a.available_memory_bytes matches Some(free) ==> (
            a.dedicated_memory_bytes matches Some(total) && free <= total)),
{
    reveal_strlit("0x1002");
    reveal_strlit("0x10de");
    assert("0x10de"@[4] != "0x1002"@[4]);
}

/// A trimmed file value, or the empty string.
fn trimmed_or_empty_value(contents: &Option<String>) -> (r: String)
    ensures
        r@ == trimmed_or_empty(opt_text(*contents)),
{
    match trimmed_value(contents) {
        Some(t) => t,
        None => String::new(),
    }
}

/// Describes the accelerator of one DRM card from its readings.
pub fn accelerator_from_card(card: &CardReadings) -> (r: AcceleratorInfo)
    ensures
        describes_card(r, *card),
{
    let vendor_id = trimmed_or_empty_value(&card.vendor);
    let device_id = trimmed_or_empty_value(&card.device);
    let vendor = vendor_name(vendor_id.as_str()).to_owned();
    let boot_vga = match trimmed_value(&card.boot_vga) {
        Some(t) => same_text(t.as_str(), "1"),
        None => false,
    };
    let kind = if same_text(vendor_id.as_str(), "0x10de") || !boot_vga {
        AcceleratorKind::DiscreteGpu
    } else {
        AcceleratorKind::IntegratedGpu
    };
    let base = vendor.clone().concat(" GPU ").concat(device_id.as_str());
    let name = match &card.driver {
        Some(driver) => base.concat(" (").concat(driver.as_str()).concat(")"),
        None => base,
    };
    let dedicated_memory_bytes = read_vram_total(&card.vram_total, &card.visible_vram_total);
    let available_memory_bytes = read_available_vram(
        vendor_id.as_str(),
        dedicated_memory_bytes,
        &card.vram_used,
        card.nvidia_free_bytes,
    );
    let device_path = "/sys/class/drm/".to_owned().concat(card.card_name.as_str());
    AcceleratorInfo {
        kind,
        name,
        vendor,
        device_path: Some(device_path),
        dedicated_memory_bytes,
        available_memory_bytes,
        telemetry_available: available_memory_bytes.is_some() || card.telemetry_probe,
    }
}


// ---------------------------------------------------------------------------
// /proc/cpuinfo
// ---------------------------------------------------------------------------

/// The CPU model that a `/proc/cpuinfo` line names: the trimmed value of a
/// `model name` or `Hardware` key.
pub open spec fn cpuinfo_model(line: Seq<char>) -> Option<Seq<char>> {
    let k = find_first(line, ':');
    if 0 <= k < line.len() {
        let key = trim(line.subrange(0, k));
        if key == "model name"@ || key == "Hardware"@ {
            Some(trim(line.subrange(k + 1, line.len() as int)))
        } else {
            None
        }
    } else {
        None
    }
}

/// The model that the first naming line gives.
pub open spec fn first_cpuinfo_model(lines: Seq<Seq<char>>) -> Option<Seq<char>>
    decreases lines.len(),
{
    if lines.len() == 0 {
        None
    } else {
        match cpuinfo_model(lines[0]) {
            Some(m) => Some(m),
            None => first_cpuinfo_model(lines.drop_first()),
        }
    }
}

/// The CPU model that `/proc/cpuinfo` names, or `unknown`.
pub open spec fn spec_cpu_model(cpuinfo: Seq<char>) -> Seq<char> {
    match first_cpuinfo_model(split_lines(cpuinfo)) {
        Some(m) => m,
        None => "unknown"@,
    }
}

/// Reads the CPU model out of `/proc/cpuinfo`.
pub fn cpu_model_from_cpuinfo(cpuinfo: &str) -> (r: String)
    ensures
        r@ == spec_cpu_model(cpuinfo@),
{
    let cs = chars_of(cpuinfo);
    let lines = line_bounds(&cs);
    let ghost all = split_lines(cs@);
    let ghost answer = match first_cpuinfo_model(all) {
        Some(m) => m,
        None => "unknown"@,
    };
    let mut i: usize = 0;
    proof {
        assert(all.skip(0) =~= all);
        assert(spec_cpu_model(cpuinfo@) == answer);
    }
    while i < lines.len()
        invariant
            0 <= i <= lines@.len(),
            lines@.len() == all.len(),
            spec_cpu_model(cpuinfo@) == answer,
            answer == match first_cpuinfo_model(all) {
                Some(m) => m,
                None => "unknown"@,
            },
            cs@ == cpuinfo@,
            forall|j: int|
                0 <= j < lines@.len() ==> {
                    &&& (#[trigger] lines@[j]).0 <= lines@[j].1 <= cs@.len()
                    &&& cs@.subrange(lines@[j].0 as int, lines@[j].1 as int) == all[j]
                },
            first_cpuinfo_model(all) == first_cpuinfo_model(all.skip(i as int)),
        decreases lines@.len() - i,
    {
        let (start, end) = lines[i];
        let ghost line = all[i as int];
        proof {
            assert(all.skip(i as int)[0] == line);
            assert(all.skip(i as int).drop_first() =~= all.skip(i + 1));
        }
        let k = find_char(&cs, start, end, ':');
        if k < end {
            let (a, b) = trim_bounds(&cs, start, k);
            proof {
                assert(line.subrange(0, k - start) =~= cs@.subrange(start as int, k as int));
                assert(line.subrange(k - start + 1, line.len() as int) =~= cs@.subrange(k + 1, end as int));
            }
            if span_is(&cs, a, b, "model name") || span_is(&cs, a, b, "Hardware") {
                let (c, d) = trim_bounds(&cs, k + 1, end);
                return string_from_chars(&cs, c, d);
            }
        }
        i = i + 1;
    }
    proof {
        assert(all.skip(i as int) =~= Seq::<Seq<char>>::empty());
    }
    "unknown".to_owned()
}

// ---------------------------------------------------------------------------
// /proc/meminfo
// ---------------------------------------------------------------------------

/// The key and KiB value of a `/proc/meminfo` line: the text before the
/// first colon, and the first word after it read as a `u64`.
pub open spec fn meminfo_entry(line: Seq<char>) -> Option<(Seq<char>, nat)> {
    let k = find_first(line, ':');
    if 0 <= k < line.len() {
        match first_word(line.subrange(k + 1, line.len() as int)) {
            Some(word) => match parse_unsigned(word, u64::MAX as nat) {
                Some(kib) => Some((line.subrange(0, k), kib)),
                None => None,
            },
            None => None,
        }
    } else {
        None
    }
}

/// The KiB value of the last line with this key.
pub open spec fn meminfo_kib(lines: Seq<Seq<char>>, key: Seq<char>) -> Option<nat>
    decreases lines.len(),
{
    if lines.len() == 0 {
        None
    } else {
        match meminfo_entry(lines.last()) {
            Some((k, v)) => if k == key {
                Some(v)
            } else {
                meminfo_kib(lines.drop_last(), key)
            },
            None => meminfo_kib(lines.drop_last(), key),
        }
    }
}

proof fn lemma_meminfo_kib_step(lines: Seq<Seq<char>>, key: Seq<char>)
    requires
        lines.len() > 0,
    ensures
        meminfo_kib(lines, key) == match meminfo_entry(lines.last()) {
            Some((k, v)) => if k == key {
                Some(v)
            } else {
                meminfo_kib(lines.drop_last(), key)
            },
            None => meminfo_kib(lines.drop_last(), key),
        },
{
}

/// Whether every value, in bytes, fits in a `u64` (reading a larger one
/// overflows).
pub open spec fn meminfo_in_range(lines: Seq<Seq<char>>) -> bool {
    forall|i: int|
        0 <= i < lines.len() ==> match #[trigger] meminfo_entry(lines[i]) {
            Some((_, v)) => v * 1024 <= u64::MAX,
            None => true,
        }
}

/// The bytes that a key holds, or zero.
pub open spec fn meminfo_bytes(lines: Seq<Seq<char>>, key: Seq<char>) -> u64 {
    match meminfo_kib(lines, key) {
        Some(v) => (v * 1024) as u64,
        None => 0,
    }
}

/// The memory that `/proc/meminfo` describes.
pub open spec fn spec_memory(meminfo: Seq<char>) -> MemoryInfo {
    let lines = split_lines(meminfo);
    MemoryInfo {
        total_bytes: meminfo_bytes(lines, "MemTotal"@),
        available_bytes: meminfo_bytes(lines, "MemAvailable"@),
        swap_total_bytes: meminfo_bytes(lines, "SwapTotal"@),
        swap_free_bytes: meminfo_bytes(lines, "SwapFree"@),
    }
}

/// A `/proc/meminfo` line `<key>:<white space><n> kB`, with a key that has
/// no colon, gives that key and `n` KiB.
pub proof fn law_meminfo_line_format(key: Seq<char>, pad: Seq<char>, n: nat)
    requires
        forall|i: int| 0 <= i < key.len() ==> key[i] != ':',
        forall|i: int| 0 <= i < pad.len() ==> is_white_space(#[trigger] pad[i]),
        n <= u64::MAX,
    ensures
        meminfo_entry(key + ":"@ + pad + decimal(n) + " kB"@) == Some((key, n)),
{
    reveal_strlit(":");
    reveal_strlit(" kB");
    let tail = " kB"@;
    let line = key + ":"@ + pad + decimal(n) + tail;
    let k = key.len() as int;
    assert(line[k] == ':');
    assert forall|j: int| 0 <= j < k implies line[j] != ':' by {
        assert(line[j] == key[j]);
    }
    lemma_find_first_is(line, ':', k);
    assert(line.subrange(k + 1, line.len() as int) =~= pad + decimal(n) + tail);
    assert(line.subrange(0, k) =~= key);
    lemma_decimal_digits(n);
    assert forall|i: int| 0 <= i < decimal(n).len() implies !is_white_space(#[trigger] decimal(n)[i]) by {
        assert(is_digit(decimal(n)[i]));
    }
    assert(is_white_space(tail[0]));
    lemma_first_word_of(pad, decimal(n), tail);
    law_decimal_parses_back(n, u64::MAX as nat);
}

/// The last line with a key gives its value: when line `i` has `key` and
/// value `kib`, and no later line has that key, the key reads `kib`.
proof fn lemma_meminfo_last_line(lines: Seq<Seq<char>>, key: Seq<char>, i: int, kib: nat)
    requires
        0 <= i < lines.len(),
        meminfo_entry(lines[i]) == Some((key, kib)),
        forall|j: int|
            i < j < lines.len() ==> !(#[trigger] meminfo_entry(lines[j]) matches Some((k, _)) && k == key),
    ensures
        meminfo_kib(lines, key) == Some(kib),
    decreases lines.len(),
{
    let last = lines.len() - 1;
    assert(lines.last() == lines[last]);
    if i < last {
        let rest = lines.drop_last();
        assert(rest[i] == lines[i]);
        assert forall|j: int| i < j < rest.len() implies !(#[trigger] meminfo_entry(rest[j]) matches Some((k, _))
            && k == key) by {
            assert(rest[j] == lines[j]);
        }
        assert(!(meminfo_entry(lines[last]) matches Some((k, _)) && k == key));
        lemma_meminfo_last_line(rest, key, i, kib);
    }
}

/// Each memory size is the value of its own key, in KiB times 1024:
/// `MemTotal` gives the total, `MemAvailable` what is available,
/// `SwapTotal` the swap size and `SwapFree` the free swap. Line `i` holds
/// `key` with `kib` KiB and is the last line with that key.
pub proof fn law_memory_fields_follow_keys(meminfo: Seq<char>, i: int, key: Seq<char>, kib: nat)
    requires
        0 <= i < split_lines(meminfo).len(),
        meminfo_entry(split_lines(meminfo)[i]) == Some((key, kib)),
        forall|j: int|
            i < j < split_lines(meminfo).len() ==> !(#[trigger] meminfo_entry(split_lines(meminfo)[j]) matches Some(
                (k, _),
            ) && k == key),
        kib * 1024 <= u64::MAX,
    ensures
        key == "MemTotal"@ ==> spec_memory(meminfo).total_bytes == kib * 1024,
        key == "MemAvailable"@ ==> spec_memory(meminfo).available_bytes == kib * 1024,
        key == "SwapTotal"@ ==> spec_memory(meminfo).swap_total_bytes == kib * 1024,
        key == "SwapFree"@ ==> spec_memory(meminfo).swap_free_bytes == kib * 1024,
{
    lemma_meminfo_last_line(split_lines(meminfo), key, i, kib);
}

/// A key that no line holds reads as zero bytes.
pub proof fn law_missing_memory_key_is_zero(meminfo: Seq<char>)
    ensures
        (forall|j: int|
            0 <= j < split_lines(meminfo).len() ==> !(#[trigger] meminfo_entry(split_lines(meminfo)[j]) matches Some(
                (k, _),
            ) && k == "MemTotal"@)) ==> spec_memory(meminfo).total_bytes == 0,
        (forall|j: int|
            0 <= j < split_lines(meminfo).len() ==> !(#[trigger] meminfo_entry(split_lines(meminfo)[j]) matches Some(
                (k, _),
            ) && k == "MemAvailable"@)) ==> spec_memory(meminfo).available_bytes == 0,
        (forall|j: int|
            0 <= j < split_lines(meminfo).len() ==> !(#[trigger] meminfo_entry(split_lines(meminfo)[j]) matches Some(
                (k, _),
            ) && k == "SwapTotal"@)) ==> spec_memory(meminfo).swap_total_bytes == 0,
        (forall|j: int|
            0 <= j < split_lines(meminfo).len() ==> !(#[trigger] meminfo_entry(split_lines(meminfo)[j]) matches Some(
                (k, _),
            ) && k == "SwapFree"@)) ==> spec_memory(meminfo).swap_free_bytes == 0,
{
    let lines = split_lines(meminfo);
    lemma_meminfo_absent(lines, "MemTotal"@);
    lemma_meminfo_absent(lines, "MemAvailable"@);
    lemma_meminfo_absent(lines, "SwapTotal"@);
    lemma_meminfo_absent(lines, "SwapFree"@);
}

proof fn lemma_meminfo_absent(lines: Seq<Seq<char>>, key: Seq<char>)
    ensures
        (forall|j: int|
            0 <= j < lines.len() ==> !(#[trigger] meminfo_entry(lines[j]) matches Some((k, _)) && k == key))
            ==> meminfo_kib(lines, key) is None,
    decreases lines.len(),
{
    if lines.len() > 0 {
        let rest = lines.drop_last();
        lemma_meminfo_absent(rest, key);
        if forall|j: int|
            0 <= j < lines.len() ==> !(#[trigger] meminfo_entry(lines[j]) matches Some((k, _)) && k == key) {
            assert(lines.last() == lines[lines.len() - 1]);
            assert forall|j: int| 0 <= j < rest.len() implies !(#[trigger] meminfo_entry(rest[j]) matches Some(
                (k, _),
            ) && k == key) by {
                assert(rest[j] == lines[j]);
            }
        }
    }
}

/// Memory sizes are whole KiB.
pub proof fn law_memory_in_whole_kib(meminfo: Seq<char>)
    requires
        meminfo_in_range(split_lines(meminfo)),
    ensures
        spec_memory(meminfo).total_bytes % 1024 == 0,
        spec_memory(meminfo).available_bytes % 1024 == 0,
        spec_memory(meminfo).swap_total_bytes % 1024 == 0,
        spec_memory(meminfo).swap_free_bytes % 1024 == 0,
{
    let lines = split_lines(meminfo);
    lemma_kib_in_range(lines, "MemTotal"@);
    lemma_kib_in_range(lines, "MemAvailable"@);
    lemma_kib_in_range(lines, "SwapTotal"@);
    lemma_kib_in_range(lines, "SwapFree"@);
}

proof fn lemma_kib_in_range(lines: Seq<Seq<char>>, key: Seq<char>)
    requires
        meminfo_in_range(lines),
    ensures
        meminfo_kib(lines, key) matches Some(v) ==> v * 1024 <= u64::MAX,
        meminfo_bytes(lines, key) % 1024 == 0,
    decreases lines.len(),
{
    if lines.len() > 0 {
        let rest = lines.drop_last();
        assert(meminfo_in_range(rest)) by {
            assert forall|i: int| 0 <= i < rest.len() implies match #[trigger] meminfo_entry(rest[i]) {
                Some((_, v)) => v * 1024 <= u64::MAX,
                None => true,
            } by {
                assert(rest[i] == lines[i]);
            }
        }
        lemma_kib_in_range(rest, key);
        assert(lines.last() == lines[lines.len() - 1]);
    }
    if let Some(v) = meminfo_kib(lines, key) {
        assert((v * 1024) % 1024 == 0) by (nonlinear_arith);
    }
}

/// Reads memory sizes out of `/proc/meminfo`; nothing when a value in bytes
/// does not fit in a `u64`.
pub fn memory_from_meminfo(meminfo: &str) -> (r: Option<MemoryInfo>)
    ensures
        match r {
            Some(m) => meminfo_in_range(split_lines(meminfo@)) && m == spec_memory(meminfo@),
            None => !meminfo_in_range(split_lines(meminfo@)),
        },
{
    let cs = chars_of(meminfo);
    let lines = line_bounds(&cs);
    let ghost all = split_lines(cs@);
    proof {
        reveal_strlit("MemTotal");
        reveal_strlit("MemAvailable");
        reveal_strlit("SwapTotal");
        reveal_strlit("SwapFree");
        assert("MemTotal"@.len() == 8 && "MemAvailable"@.len() == 12);
        assert("SwapTotal"@.len() == 9 && "SwapFree"@.len() == 8);
        assert("MemTotal"@[0] != "SwapFree"@[0]);
        assert("MemTotal"@ != "MemAvailable"@ && "MemTotal"@ != "SwapTotal"@ && "MemTotal"@ != "SwapFree"@);
        assert("MemAvailable"@ != "SwapTotal"@ && "MemAvailable"@ != "SwapFree"@ && "SwapTotal"@ != "SwapFree"@);
    }
    let mut total: u64 = 0;
    let mut available: u64 = 0;
    let mut swap_total: u64 = 0;
    let mut swap_free: u64 = 0;
    let mut i: usize = 0;
    while i < lines.len()
        invariant
            0 <= i <= lines@.len(),
            lines@.len() == all.len(),
            all == split_lines(cs@),
            cs@ == meminfo@,
            forall|j: int|
                0 <= j < lines@.len() ==> {
                    &&& (#[trigger] lines@[j]).0 <= lines@[j].1 <= cs@.len()
                    &&& cs@.subrange(lines@[j].0 as int, lines@[j].1 as int) == all[j]
                },
            meminfo_in_range(all.take(i as int)),
            "MemTotal"@ != "MemAvailable"@ && "MemTotal"@ != "SwapTotal"@ && "MemTotal"@ != "SwapFree"@,
            "MemAvailable"@ != "SwapTotal"@ && "MemAvailable"@ != "SwapFree"@ && "SwapTotal"@ != "SwapFree"@,
            total == meminfo_bytes(all.take(i as int), "MemTotal"@),
            available == meminfo_bytes(all.take(i as int), "MemAvailable"@),
            swap_total == meminfo_bytes(all.take(i as int), "SwapTotal"@),
            swap_free == meminfo_bytes(all.take(i as int), "SwapFree"@),
        decreases lines@.len() - i,
    {
        let (start, end) = lines[i];
        let ghost line = all[i as int];
        let ghost prefix = all.take(i as int);
        let ghost next = all.take(i + 1);
        proof {
            assert(next.drop_last() =~= prefix);
            assert(next.last() == line);
        }
        let k = find_char(&cs, start, end, ':');
        if k < end {
            proof {
                assert(line.subrange(0, k - start) =~= cs@.subrange(start as int, k as int));
                assert(line.subrange(k - start + 1, line.len() as int) =~= cs@.subrange(k + 1, end as int));
            }
            match first_word_bounds(&cs, k + 1, end) {
                Some((a, b)) => match parse_decimal(&cs, a, b, u64::MAX) {
                    Some(kib) => {
                        if kib > u64::MAX / 1024 {
                            proof {
                                assert(meminfo_entry(all[i as int]) == Some((line.subrange(0, k - start), kib as nat)));
                            }
                            return None;
                        }
                        let bytes = kib * 1024;
                        if span_is(&cs, start, k, "MemTotal") {
                            total = bytes;
                        } else if span_is(&cs, start, k, "MemAvailable") {
                            available = bytes;
                        } else if span_is(&cs, start, k, "SwapTotal") {
                            swap_total = bytes;
                        } else if span_is(&cs, start, k, "SwapFree") {
                            swap_free = bytes;
                        }
                        proof {
                            assert(meminfo_entry(line) == Some((line.subrange(0, k - start), kib as nat)));
                        }
                    },
                    None => {},
                },
                None => {},
            }
        }
        proof {
            lemma_meminfo_kib_step(next, "MemTotal"@);
            lemma_meminfo_kib_step(next, "MemAvailable"@);
            lemma_meminfo_kib_step(next, "SwapTotal"@);
            lemma_meminfo_kib_step(next, "SwapFree"@);
            assert forall|j: int| 0 <= j < next.len() implies match #[trigger] meminfo_entry(next[j]) {
                Some((_, v)) => v * 1024 <= u64::MAX,
                None => true,
            } by {
                if j < i {
                    assert(next[j] == prefix[j]);
                }
            }
        }
        i = i + 1;
    }
    proof {
        assert(all.take(lines@.len() as int) =~= all);
    }
    Some(MemoryInfo {
        total_bytes: total,
        available_bytes: available,
        swap_total_bytes: swap_total,
        swap_free_bytes: swap_free,
    })
}


// ---------------------------------------------------------------------------
// /etc/os-release
// ---------------------------------------------------------------------------

/// The name that an `os-release` line gives: the value of `PRETTY_NAME=`
/// without surrounding double quotes.
pub open spec fn pretty_name(line: Seq<char>) -> Option<Seq<char>> {
    if has_prefix(line, "PRETTY_NAME="@) {
        Some(strip_char(line.skip(12), '"'))
    } else {
        None
    }
}

/// The name that the first `PRETTY_NAME=` line gives.
pub open spec fn first_pretty_name(lines: Seq<Seq<char>>) -> Option<Seq<char>>
    decreases lines.len(),
{
    if lines.len() == 0 {
        None
    } else {
        match pretty_name(lines[0]) {
            Some(n) => Some(n),
            None => first_pretty_name(lines.drop_first()),
        }
    }
}

/// The operating system name that `/etc/os-release` gives (`None` when it
/// could not be read), or `Linux`.
pub open spec fn spec_os_name(os_release: Option<Seq<char>>) -> Seq<char> {
    match os_release {
        Some(text) => match first_pretty_name(split_lines(text)) {
            Some(n) => n,
            None => "Linux"@,
        },
        None => "Linux"@,
    }
}

/// Reads the operating system name.
pub fn os_name_from_release(os_release: &Option<String>) -> (r: String)
    ensures
        r@ == spec_os_name(opt_text(*os_release)),
{
    let text = match os_release {
        Some(t) => t,
        None => return "Linux".to_owned(),
    };
    let cs = chars_of(text.as_str());
    let lines = line_bounds(&cs);
    let ghost all = split_lines(cs@);
    let ghost answer = match first_pretty_name(all) {
        Some(n) => n,
        None => "Linux"@,
    };
    proof {
        reveal_strlit("PRETTY_NAME=");
        assert(all.skip(0) =~= all);
        assert(spec_os_name(opt_text(*os_release)) == answer);
    }
    let mut i: usize = 0;
    while i < lines.len()
        invariant
            0 <= i <= lines@.len(),
            lines@.len() == all.len(),
            spec_os_name(opt_text(*os_release)) == answer,
            answer == match first_pretty_name(all) {
                Some(n) => n,
                None => "Linux"@,
            },
            cs@ == text@,
            "PRETTY_NAME="@.len() == 12,
            forall|j: int|
                0 <= j < lines@.len() ==> {
                    &&& (#[trigger] lines@[j]).0 <= lines@[j].1 <= cs@.len()
                    &&& cs@.subrange(lines@[j].0 as int, lines@[j].1 as int) == all[j]
                },
            first_pretty_name(all) == first_pretty_name(all.skip(i as int)),
        decreases lines@.len() - i,
    {
        let (start, end) = lines[i];
        let ghost line = all[i as int];
        proof {
            assert(all.skip(i as int)[0] == line);
            assert(all.skip(i as int).drop_first() =~= all.skip(i + 1));
        }
        if end - start >= 12 && span_is(&cs, start, start + 12, "PRETTY_NAME=") {
            proof {
                assert(line.subrange(0, 12) =~= cs@.subrange(start as int, start + 12));
                assert(line.skip(12) =~= cs@.subrange(start + 12, end as int));
                assert(pretty_name(line) == Some(strip_char(line.skip(12), '"')));
            }
            let (a, b) = strip_char_bounds(&cs, start + 12, end, '"');
            return string_from_chars(&cs, a, b);
        }
        proof {
            if end - start >= 12 {
                assert(line.subrange(0, 12) =~= cs@.subrange(start as int, start + 12));
            }
        }
        i = i + 1;
    }
    proof {
        assert(all.skip(i as int) =~= Seq::<Seq<char>>::empty());
    }
    "Linux".to_owned()
}

// ---------------------------------------------------------------------------
// Physical cores.
// ---------------------------------------------------------------------------

/// What was read about one entry of `/sys/devices/system/cpu`.
#[derive(Debug)]
pub struct CpuDirectoryEntry {
    /// The entry name, such as `cpu3` or `cpufreq`.
    pub name: String,
    /// `topology/physical_package_id` (`None` when it could not be read).
    pub physical_package_id: Option<String>,
    /// `topology/core_id` (`None` when it could not be read).
    pub core_id: Option<String>,
}

/// Whether an entry is a CPU: `cpu` followed by a `usize`.
pub open spec fn is_cpu_entry(name: Seq<char>) -> bool {
    has_prefix(name, "cpu"@) && parse_unsigned(name.skip(3), usize::MAX as nat) is Some
}

/// The package and core of a CPU, when both could be read.
pub open spec fn cpu_topology(e: CpuDirectoryEntry) -> Option<(Seq<char>, Seq<char>)> {
    match (nonempty_trimmed(opt_text(e.physical_package_id)), nonempty_trimmed(opt_text(e.core_id))) {
        (Some(p), Some(c)) => Some((p, c)),
        _ => None,
    }
}

/// The (package, core) pairs of the CPU entries, in order.
pub open spec fn core_pairs(es: Seq<CpuDirectoryEntry>) -> Seq<(Seq<char>, Seq<char>)>
    decreases es.len(),
{
    if es.len() == 0 {
        seq![]
    } else {
        let rest = core_pairs(es.drop_last());
        if is_cpu_entry(es.last().name@) && cpu_topology(es.last()) is Some {
            rest.push(cpu_topology(es.last())->0)
        } else {
            rest
        }
    }
}

/// Whether some CPU entry's topology could not be read.
pub open spec fn topology_missing(es: Seq<CpuDirectoryEntry>) -> bool {
    exists|i: int| 0 <= i < es.len() && is_cpu_entry((#[trigger] es[i]).name@) && cpu_topology(es[i]) is None
}

/// The number of physical cores: distinct (package, core) pairs among the
/// CPUs; nothing when a CPU's topology is unreadable or there is no CPU.
pub open spec fn spec_physical_cores(es: Seq<CpuDirectoryEntry>) -> Option<nat> {
    if topology_missing(es) {
        None
    } else {
        let n = core_pairs(es).to_set().len();
        if n == 0 {
            None
        } else {
            Some(n)
        }
    }
}

/// There are never more physical cores than CPU entries.
pub proof fn law_physical_cores_within_cpus(es: Seq<CpuDirectoryEntry>)
    ensures
        spec_physical_cores(es) matches Some(n) ==> n <= core_pairs(es).len() <= es.len(),
{
    lemma_core_pairs_len(es);
    core_pairs(es).lemma_cardinality_of_set();
}

proof fn lemma_core_pairs_len(es: Seq<CpuDirectoryEntry>)
    ensures
        core_pairs(es).len() <= es.len(),
    decreases es.len(),
{
    if es.len() > 0 {
        lemma_core_pairs_len(es.drop_last());
    }
}

/// Tests whether a directory entry is a CPU.
fn cpu_entry(name: &str) -> (r: bool)
    ensures
        r == is_cpu_entry(name@),
{
    let cs = chars_of(name);
    proof {
        reveal_strlit("cpu");
    }
    if cs.len() < 3 || !span_is(&cs, 0, 3, "cpu") {
        return false;
    }
    proof {
        assert(cs@.skip(3) =~= cs@.subrange(3, cs@.len() as int));
    }
    parse_decimal(&cs, 3, cs.len(), usize::MAX as u64).is_some()
}

/// The views of a list of pairs of strings.
pub open spec fn pair_texts(v: Seq<(String, String)>) -> Seq<(Seq<char>, Seq<char>)> {
    v.map_values(|p: (String, String)| (p.0@, p.1@))
}

/// Counts the physical cores (see [`spec_physical_cores`]).
pub fn count_physical_cores(entries: &Vec<CpuDirectoryEntry>) -> (r: Option<usize>)
    ensures
        match spec_physical_cores(entries@) {
            Some(n) => r == Some(n as usize),
            None => r is None,
        },
{
    let mut cores: Vec<(String, String)> = Vec::new();
    let mut i: usize = 0;
    while i < entries.len()
        invariant
            0 <= i <= entries@.len(),
            !topology_missing(entries@.take(i as int)),
            pair_texts(cores@).no_duplicates(),
            pair_texts(cores@).to_set() == core_pairs(entries@.take(i as int)).to_set(),
            cores@.len() <= i,
        decreases entries@.len() - i,
    {
        let e = &entries[i];
        let ghost prefix = entries@.take(i as int);
        let ghost next = entries@.take(i + 1);
        proof {
            assert(next.drop_last() =~= prefix);
            assert(next.last() == *e);
        }
        if cpu_entry(e.name.as_str()) {
            let package = match trimmed_value(&e.physical_package_id) {
                Some(p) => p,
                None => {
                    proof {
                        assert(topology_missing(entries@)) by {
                            assert(entries@[i as int] == *e);
                        }
                    }
                    return None;
                },
            };
            let core = match trimmed_value(&e.core_id) {
                Some(c) => c,
                None => {
                    proof {
                        assert(topology_missing(entries@)) by {
                            assert(entries@[i as int] == *e);
                        }
                    }
                    return None;
                },
            };
            let ghost pair = (package@, core@);
            let mut found = false;
            let mut j: usize = 0;
            while j < cores.len()
                invariant
                    0 <= j <= cores@.len(),
                    pair == (package@, core@),
                    found == exists|k: int| 0 <= k < j && #[trigger] pair_texts(cores@)[k] == pair,
                decreases cores@.len() - j,
            {
                proof {
                    assert(pair_texts(cores@)[j as int] == (cores@[j as int].0@, cores@[j as int].1@));
                }
                if cores[j].0 == package && cores[j].1 == core {
                    proof {
                        assert(pair_texts(cores@)[j as int] == pair);
                    }
                    found = true;
                } else {
                    proof {
                        assert(pair_texts(cores@)[j as int] != pair);
                    }
                }
                j = j + 1;
            }
            let ghost old_view = pair_texts(cores@);
            if !found {
                cores.push((package, core));
                proof {
                    assert(pair_texts(cores@) =~= old_view.push(pair));
                    assert(!old_view.contains(pair));
                    old_view.lemma_push_to_set_commute(pair);
                }
            } else {
                proof {
                    assert(old_view.contains(pair));
                    assert(old_view.to_set().insert(pair) =~= old_view.to_set());
                }
            }
            proof {
                assert(core_pairs(next) == core_pairs(prefix).push(pair));
                core_pairs(prefix).lemma_push_to_set_commute(pair);
            }
        }
        proof {
            assert(!topology_missing(next)) by {
                if topology_missing(next) {
                    let k = choose|k: int| 0 <= k < next.len() && is_cpu_entry((#[trigger] next[k]).name@)
                        && cpu_topology(next[k]) is None;
                    if k < i {
                        assert(prefix[k] == next[k]);
                    }
                }
            }
        }
        i = i + 1;
    }
    proof {
        assert(entries@.take(entries@.len() as int) =~= entries@);
        pair_texts(cores@).unique_seq_to_set();
    }
    if cores.len() == 0 {
        None
    } else {
        Some(cores.len())
    }
}


// ---------------------------------------------------------------------------
// Power supplies.
// ---------------------------------------------------------------------------

/// What was read about one entry of `/sys/class/power_supply` (`None`
/// where a file could not be read).
#[derive(Debug)]
pub struct PowerSupplyReadings {
    /// `type`.
    pub supply_type: Option<String>,
    /// `online`.
    pub online: Option<String>,
}

/// Whether a supply type is external power.
pub open spec fn is_external_supply(supply_type: Seq<char>) -> bool {
    supply_type == "Mains"@ || supply_type == "USB"@ || supply_type == "USB_C"@
}

/// The power state after looking at one more supply: an external supply
/// whose `online` could be read says whether the host is on AC.
pub open spec fn on_ac_after(previous: Option<bool>, supply: PowerSupplyReadings) -> Option<bool> {
    match nonempty_trimmed(opt_text(supply.supply_type)) {
        Some(t) => if is_external_supply(t) {
            match nonempty_trimmed(opt_text(supply.online)) {
                Some(o) => Some(o == "1"@),
                None => previous,
            }
        } else {
            previous
        },
        None => previous,
    }
}

/// Whether the host runs on AC power, as the last readable external supply
/// says; unknown without one.
pub open spec fn spec_on_ac(supplies: Seq<PowerSupplyReadings>) -> Option<bool>
    decreases supplies.len(),
{
    if supplies.len() == 0 {
        None
    } else {
        on_ac_after(spec_on_ac(supplies.drop_last()), supplies.last())
    }
}

/// Whether a supply is a battery.
pub open spec fn is_battery(supply: PowerSupplyReadings) -> bool {
    nonempty_trimmed(opt_text(supply.supply_type)) == Some("Battery"@)
}

/// The power source and the battery that describes the host.
#[derive(Debug)]
pub struct PowerSummary {
    pub on_ac: Option<bool>,
    /// The index of the last battery supply, whose capacity and status
    /// describe the battery.
    pub battery: Option<usize>,
}

/// Tests whether a supply type is external power.
fn external_supply(supply_type: &str) -> (r: bool)
    ensures
        r == is_external_supply(supply_type@),
{
    same_text(supply_type, "Mains") || same_text(supply_type, "USB") || same_text(supply_type, "USB_C")
}

/// Summarises the power supplies.
pub fn power_summary(supplies: &Vec<PowerSupplyReadings>) -> (r: PowerSummary)
    ensures
        r.on_ac == spec_on_ac(supplies@),
        match r.battery {
            Some(b) => b < supplies@.len() && is_battery(supplies@[b as int]) && forall|j: int|
                b < j < supplies@.len() ==> !is_battery(#[trigger] supplies@[j]),
            None => forall|j: int| 0 <= j < supplies@.len() ==> !is_battery(#[trigger] supplies@[j]),
        },
{
    let mut on_ac: Option<bool> = None;
    let mut battery: Option<usize> = None;
    let mut i: usize = 0;
    while i < supplies.len()
        invariant
            0 <= i <= supplies@.len(),
            on_ac == spec_on_ac(supplies@.take(i as int)),
            match battery {
                Some(b) => b < i && is_battery(supplies@[b as int]) && forall|j: int|
                    b < j < i ==> !is_battery(#[trigger] supplies@[j]),
                None => forall|j: int| 0 <= j < i ==> !is_battery(#[trigger] supplies@[j]),
            },
        decreases supplies@.len() - i,
    {
        let s = &supplies[i];
        proof {
            let next = supplies@.take(i + 1);
            assert(next.drop_last() =~= supplies@.take(i as int));
            assert(next.last() == *s);
        }
        match trimmed_value(&s.supply_type) {
            Some(t) => {
                if external_supply(t.as_str()) {
                    match trimmed_value(&s.online) {
                        Some(o) => {
                            on_ac = Some(same_text(o.as_str(), "1"));
                        },
                        None => {},
                    }
                }
                if same_text(t.as_str(), "Battery") {
                    battery = Some(i);
                }
            },
            None => {},
        }
        i = i + 1;
    }
    proof {
        assert(supplies@.take(supplies@.len() as int) =~= supplies@);
    }
    PowerSummary { on_ac, battery }
}

} // verus!
