//! Model names from the PCI id database (`pci.ids`), the file `lspci` reads.
//!
//! The database lists vendors at column zero, their devices one tab in, and
//! subsystem overrides two tabs in; `#` starts a comment line.

use vstd::prelude::*;
use crate::text::{
    chars_of, find_char, first_index, hex4, hex_digit, hex_digit_char, is_blank, is_space,
    last_index, lemma_first_index, lemma_last_index, lines, next_line, range_is_blank,
    range_starts_with, rfind_char, starts_with, string_of_range, trim, trim_end, trim_range,
    trim_start,
};

verus! {

/// The marketing name in brackets where `name` carries one, so that
/// "Navi 23 [Radeon RX 6600/6600 XT/6600M]" becomes
/// "Radeon RX 6600/6600 XT/6600M": the text between the first `[` and the
/// last `]`, when that text is not empty; `name` unchanged otherwise.
pub open spec fn shortened_model_name(name: Seq<char>) -> Seq<char> {
    match (first_index(name, '['), last_index(name, ']')) {
        (Some(open), Some(close)) => if close > open + 1 {
            name.subrange(open + 1, close)
        } else {
            name
        },
        _ => name,
    }
}

/// Trims a `pci.ids` entry down to the marketing name where it carries one.
pub fn shorten_model_name(name: &str) -> (r: String)
    ensures
        r@ == shortened_model_name(name@),
{
    let v = chars_of(name);
    let n = v.len();
    assert(v@.subrange(0, n as int) =~= v@);
    let open = find_char(&v, 0, n, '[');
    let close = rfind_char(&v, 0, n, ']');
    proof {
        lemma_first_index(v@, '[');
        lemma_last_index(v@, ']');
    }
    match (open, close) {
        (Some(o), Some(c)) => {
            if c > o + 1 {
                string_of_range(name, &v, o + 1, c)
            } else {
                String::from_str(name)
            }
        },
        _ => String::from_str(name),
    }
}

/// The rest of an `entry` of the form "<id> <name>": the text after `id`,
/// which begins with the space.
pub open spec fn entry_after_id(entry: Seq<char>, id: Seq<char>) -> Option<Seq<char>> {
    if starts_with(entry, id) && starts_with(entry.skip(id.len() as int), seq![' ']) {
        Some(entry.skip(id.len() as int))
    } else {
        None
    }
}

/// Walks the database lines looking for `device` in the block of `vendor`.
/// `in_vendor` says whether the lines walked so far ended inside that block.
/// Comment and blank lines are passed over; a device line (one tab in) of
/// the block that names `device` gives its model name; once the block ends
/// at the next vendor line the device is not there.
pub open spec fn pci_scan(
    lines: Seq<Seq<char>>,
    in_vendor: bool,
    vendor: Seq<char>,
    device: Seq<char>,
) -> Option<Seq<char>>
    decreases lines.len(),
{
    if lines.len() == 0 {
        None
    } else {
        let line = lines[0];
        let rest = lines.drop_first();
        if starts_with(line, seq!['#']) || is_blank(line) {
            pci_scan(rest, in_vendor, vendor, device)
        } else if line[0] == '\t' {
            if in_vendor {
                match entry_after_id(line.drop_first(), device) {
                    Some(name) => Some(shortened_model_name(trim(name))),
                    None => pci_scan(rest, in_vendor, vendor, device),
                }
            } else {
                pci_scan(rest, in_vendor, vendor, device)
            }
        } else if in_vendor {
            None
        } else {
            pci_scan(rest, entry_after_id(line, vendor) is Some, vendor, device)
        }
    }
}

/// The model name that `database` gives to device `device_id` of vendor
/// `vendor_id`, the ids written as four lowercase hexadecimal digits.
pub open spec fn pci_model_name(database: Seq<char>, vendor_id: u16, device_id: u16) -> Option<
    Seq<char>,
> {
    pci_scan(lines(database), false, hex4(vendor_id), hex4(device_id))
}

/// `v` as four lowercase hexadecimal digits.
pub fn hex4_chars(v: u16) -> (r: Vec<char>)
    ensures
        r@ == hex4(v),
{
    let mut r: Vec<char> = Vec::new();
    r.push(hex_digit_char((v / 4096) as u8));
    r.push(hex_digit_char(((v / 256) % 16) as u8));
    r.push(hex_digit_char(((v / 16) % 16) as u8));
    r.push(hex_digit_char((v % 16) as u8));
    assert(r@ =~= hex4(v));
    r
}

/// Whether `v[lo..hi]` is "<id> ..." for the four-character `id`.
fn range_has_entry(v: &Vec<char>, lo: usize, hi: usize, id: &Vec<char>) -> (b: bool)
    requires
        lo <= hi <= v.len(),
        id.len() == 4,
    ensures
        b == (entry_after_id(v@.subrange(lo as int, hi as int), id@) is Some),
        b ==> entry_after_id(v@.subrange(lo as int, hi as int), id@) == Some(
            v@.subrange(lo + 4, hi as int),
        ),
{
    let ghost s = v@.subrange(lo as int, hi as int);
    let b = range_starts_with(v, lo, hi, id) && lo + 4 < hi && v[lo + 4] == ' ';
    proof {
        let after = s.skip(4);
        if starts_with(s, id@) {
            assert(after =~= v@.subrange(lo + 4, hi as int));
            if lo + 4 < hi {
                assert(after[0] == v@[lo + 4]);
                if v@[lo + 4] == ' ' {
                    assert(after.take(1) =~= seq![' ']);
                } else {
                    assert(after.take(1)[0] != seq![' '][0]);
                }
            } else {
                assert(after.len() == 0);
            }
        }
    }
    b
}

/// Resolves a PCI vendor/device pair to a model name through the text of
/// the PCI id database.
pub fn lookup_pci_name(database: &str, vendor_id: u16, device_id: u16) -> (r: Option<String>)
    ensures
        match pci_model_name(database@, vendor_id, device_id) {
            Some(name) => r is Some && r->0@ == name,
            None => r is None,
        },
{
    let v = chars_of(database);
    let n = v.len();
    let vendor = hex4_chars(vendor_id);
    let device = hex4_chars(device_id);
    let hash = vec!['#'];
    let ghost goal = pci_model_name(database@, vendor_id, device_id);
    assert(v@.subrange(0, n as int) =~= v@);
    let mut pos: usize = 0;
    let mut in_vendor = false;
    while pos < n
        invariant
            pos <= n == v.len(),
            v@ == database@,
            vendor@ == hex4(vendor_id),
            device@ == hex4(device_id),
            hash@ == seq!['#'],
            goal == pci_model_name(database@, vendor_id, device_id),
            pci_scan(lines(v@.subrange(pos as int, n as int)), in_vendor, vendor@, device@)
                == goal,
        decreases n - pos,
    {
        let (a, b, next) = next_line(&v, pos, n);
        let ghost line = v@.subrange(a as int, b as int);
        let ghost rest = lines(v@.subrange(next as int, n as int));
        assert((seq![line] + rest)[0] == line);
        assert((seq![line] + rest).drop_first() =~= rest);
        if range_starts_with(&v, a, b, &hash) || range_is_blank(&v, a, b) {
            pos = next;
        } else if v[a] == '\t' {
            assert(line[0] == v@[a as int]);
            assert(line.drop_first() =~= v@.subrange(a + 1, b as int));
            if in_vendor && range_has_entry(&v, a + 1, b, &device) {
                let (ta, tb) = trim_range(&v, a + 5, b);
                let raw = string_of_range(database, &v, ta, tb);
                return Some(shorten_model_name(raw.as_str()));
            }
            pos = next;
        } else {
            proof {
                if line.len() == 0 {
                    assert(is_blank(line));
                }
                assert(line[0] == v@[a as int]);
            }
            if in_vendor {
                return None;
            }
            in_vendor = range_has_entry(&v, a, b, &vendor);
            pos = next;
        }
    }
    assert(v@.subrange(n as int, n as int) =~= Seq::<char>::empty());
    None
}

} // verus!

verus! {

/// A name without a `[` is kept as it is.
pub proof fn law_name_without_brackets_is_kept(name: Seq<char>)
    requires
        !name.contains('['),
    ensures
        shortened_model_name(name) == name,
{
    lemma_first_index(name, '[');
    if first_index(name, '[') is Some {
        let i = first_index(name, '[')->0;
        assert(name[i] == '[');
    }
}

/// A name "<code> [<marketing>]" whose code holds no `[` and that ends at
/// the `]` is cut to the marketing name, when that is not empty.
pub proof fn law_bracketed_name_is_preferred(code: Seq<char>, marketing: Seq<char>)
    requires
        !code.contains('['),
        marketing.len() > 0,
    ensures
        shortened_model_name(code + seq!['['] + marketing + seq![']']) == marketing,
{
    let name = code + seq!['['] + marketing + seq![']'];
    let open = code.len() as int;
    let close = name.len() - 1;
    assert(name[open] == '[');
    assert(name[close] == ']');
    assert forall|j: int| 0 <= j < open implies name[j] != '[' by {
        assert(name[j] == code[j]);
        if code[j] == '[' {
            assert(code.contains('['));
        }
    }
    lemma_first_index(name, '[');
    lemma_last_index(name, ']');
    match first_index(name, '[') {
        Some(k) => {
            if k < open {
                assert(name[k] != '[');
            } else if k > open {
                assert(name[open] == '[');
            }
        },
        None => {
            assert(name[open] == '[');
        },
    }
    assert(name.subrange(open + 1, close) =~= marketing);
}

/// Whether `c` can start a database line that is neither blank, nor a
/// comment, nor indented.
pub open spec fn starts_vendor_line(c: char) -> bool {
    !is_space(c) && c != '#'
}

/// Once the vendor's own header line "<vendor id> <name>" is met, the walk
/// is inside its block.
pub proof fn law_vendor_line_opens_block(
    vendor_line_rest: Seq<char>,
    rest: Seq<Seq<char>>,
    vendor: Seq<char>,
    device: Seq<char>,
)
    requires
        vendor.len() > 0,
        starts_vendor_line(vendor[0]),
    ensures
        pci_scan(
            seq![vendor + seq![' '] + vendor_line_rest] + rest,
            false,
            vendor,
            device,
        ) == pci_scan(rest, true, vendor, device),
{
    let line = vendor + seq![' '] + vendor_line_rest;
    let lines = seq![line] + rest;
    assert(lines[0] == line);
    assert(lines.drop_first() =~= rest);
    assert(line[0] == vendor[0]);
    assert(!starts_with(line, seq!['#'])) by {
        if starts_with(line, seq!['#']) {
            assert(line.take(1)[0] == line[0]);
        }
    }
    assert(!is_blank(line)) by {
        if is_blank(line) {
            assert(is_space(line[0]));
        }
    }
    assert(line.take(vendor.len() as int) =~= vendor);
    assert(line.skip(vendor.len() as int) =~= seq![' '] + vendor_line_rest);
    assert(line.skip(vendor.len() as int).take(1) =~= seq![' ']);
}

/// Inside the vendor's block, a device line "\t<device id> <name>" names
/// the device: the lookup gives the trimmed name, cut to its bracketed part
/// where it carries one.
pub proof fn law_device_line_names_device(
    name: Seq<char>,
    rest: Seq<Seq<char>>,
    vendor: Seq<char>,
    device: Seq<char>,
)
    requires
        device.len() > 0,
        !is_space(device[0]),
    ensures
        pci_scan(
            seq![seq!['\t'] + device + seq![' '] + name] + rest,
            true,
            vendor,
            device,
        ) == Some(shortened_model_name(trim(seq![' '] + name))),
{
    let line = seq!['\t'] + device + seq![' '] + name;
    let lines = seq![line] + rest;
    assert(lines[0] == line);
    assert(lines.drop_first() =~= rest);
    assert(line[0] == '\t');
    assert(!starts_with(line, seq!['#'])) by {
        if starts_with(line, seq!['#']) {
            assert(line.take(1)[0] == line[0]);
        }
    }
    assert(!is_blank(line)) by {
        if is_blank(line) {
            assert(line[1] == device[0]);
            assert(is_space(line[1]));
        }
    }
    let entry = line.drop_first();
    assert(entry =~= device + seq![' '] + name);
    assert(entry.take(device.len() as int) =~= device);
    assert(entry.skip(device.len() as int) =~= seq![' '] + name);
    assert(entry.skip(device.len() as int).take(1) =~= seq![' ']);
}

/// A database whose first two lines are the vendor's header and a device
/// line of it names that device, and a name without brackets is given as it
/// is, trimmed.
pub proof fn law_lookup_finds_listed_device(
    database: Seq<char>,
    vendor_id: u16,
    device_id: u16,
    vendor_name: Seq<char>,
    name: Seq<char>,
    rest: Seq<Seq<char>>,
)
    requires
        lines(database) == seq![
            hex4(vendor_id) + seq![' '] + vendor_name,
            seq!['\t'] + hex4(device_id) + seq![' '] + name,
        ] + rest,
    ensures
        pci_model_name(database, vendor_id, device_id) == Some(
            shortened_model_name(trim(seq![' '] + name)),
        ),
        !name.contains('[') ==> pci_model_name(database, vendor_id, device_id) == Some(
            trim(seq![' '] + name),
        ),
{
    let vendor = hex4(vendor_id);
    let device = hex4(device_id);
    let vline = vendor + seq![' '] + vendor_name;
    let dline = seq!['\t'] + device + seq![' '] + name;
    assert(seq![vline, dline] + rest =~= seq![vline] + (seq![dline] + rest));
    lemma_hex_digit_not_space(vendor_id);
    lemma_hex_digit_not_space(device_id);
    law_vendor_line_opens_block(vendor_name, seq![dline] + rest, vendor, device);
    law_device_line_names_device(name, rest, vendor, device);
    if !name.contains('[') {
        lemma_trim_keeps_missing(seq![' '] + name, '[');
        if (seq![' '] + name).contains('[') {
            let k = choose|k: int| 0 <= k < (seq![' '] + name).len() && (seq![' '] + name)[k] == '[';
            assert(name[k - 1] == '[');
        }
        law_name_without_brackets_is_kept(trim(seq![' '] + name));
    }
}

proof fn lemma_hex_digit_not_space(v: u16)
    ensures
        starts_vendor_line(hex4(v)[0]),
        !is_space(hex4(v)[0]),
{
    let d = (v / 4096) as nat;
    assert(d < 16);
    assert(hex4(v)[0] == hex_digit(d));
}

proof fn lemma_trim_keeps_missing(s: Seq<char>, c: char)
    requires
        !s.contains(c),
    ensures
        !trim(s).contains(c),
{
    lemma_trim_is_subrange(s);
    if trim(s).contains(c) {
        let k = choose|k: int| 0 <= k < trim(s).len() && trim(s)[k] == c;
        let (a, b) = choose|a: int, b: int| 0 <= a <= b <= s.len() && trim(s) == s.subrange(a, b);
        assert(s[a + k] == c);
    }
}

proof fn lemma_trim_start_is_skip(s: Seq<char>)
    ensures
        exists|a: int| 0 <= a <= s.len() && trim_start(s) == s.skip(a),
    decreases s.len(),
{
    if s.len() > 0 && is_space(s[0]) {
        lemma_trim_start_is_skip(s.drop_first());
        let a = choose|a: int|
            0 <= a <= s.drop_first().len() && trim_start(s.drop_first()) == s.drop_first().skip(a);
        assert(s.drop_first().skip(a) =~= s.skip(a + 1));
    } else {
        assert(s.skip(0) =~= s);
    }
}

proof fn lemma_trim_end_is_take(s: Seq<char>)
    ensures
        exists|b: int| 0 <= b <= s.len() && trim_end(s) == s.take(b),
    decreases s.len(),
{
    if s.len() > 0 && is_space(s.last()) {
        lemma_trim_end_is_take(s.drop_last());
        let b = choose|b: int|
            0 <= b <= s.drop_last().len() && trim_end(s.drop_last()) == s.drop_last().take(b);
        assert(s.drop_last().take(b) =~= s.take(b));
    } else {
        assert(s.take(s.len() as int) =~= s);
    }
}

proof fn lemma_trim_is_subrange(s: Seq<char>)
    ensures
        exists|a: int, b: int| 0 <= a <= b <= s.len() && trim(s) == s.subrange(a, b),
{
    lemma_trim_start_is_skip(s);
    let a = choose|a: int| 0 <= a <= s.len() && trim_start(s) == s.skip(a);
    lemma_trim_end_is_take(s.skip(a));
    let b = choose|b: int| 0 <= b <= s.skip(a).len() && trim_end(s.skip(a)) == s.skip(a).take(b);
    assert(s.skip(a).take(b) =~= s.subrange(a, a + b));
}

} // verus!
