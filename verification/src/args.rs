//! Configuration extraction: the whitelists and flags the daemon reads from
//! its INI-format configuration file. The parsed file is held by the `ini`
//! crate; every value drawn from it is parsed and assembled into filters by
//! verified code.

use vstd::prelude::*;
use vstd::string::StrSliceExecFns;

use crate::filter::{AcpiFilter, EvdevFilter};
use crate::text::{split_char, split_ranges_in, str_chars};

verus! {

#[verifier::external_type_specification]
#[verifier::external_body]
pub struct ExIni(ini::Ini);

/// The value stored in the parsed configuration under `section` and `key`,
/// as the `ini` crate reports it.
pub uninterp spec fn ini_entry(conf: ini::Ini, section: Seq<char>, key: Seq<char>) -> Option<
    Seq<char>,
>;

/// Relies on `ini::Ini::section` and `ini::Properties::get`: looks up the
/// first value stored under `key` in section `section` of the parsed file.
#[verifier::external_body]
fn ini_lookup(conf: &ini::Ini, section: &str, key: &str) -> (r: Option<String>)
    ensures
        r is Some <==> ini_entry(*conf, section@, key@) is Some,
        r matches Some(v) ==> ini_entry(*conf, section@, key@) == Some(v@),
{
    match conf.section(Some(section)) {
        Some(props) => props.get(key).map(|v| v.to_string()),
        None => None,
    }
}

/// A decimal digit.
pub open spec fn is_digit(c: char) -> bool {
    '0' <= c && c <= '9'
}

/// The numeric value of one digit character.
pub open spec fn digit_val(c: char) -> int {
    c as int - '0' as int
}

/// Every character is a decimal digit.
pub open spec fn all_digits(t: Seq<char>) -> bool {
    forall|i: int| 0 <= i < t.len() ==> is_digit(#[trigger] t[i])
}

/// The number the digit string `t` denotes, most significant digit first.
pub open spec fn digits_val(t: Seq<char>) -> int
    decreases t.len(),
{
    if t.len() == 0 {
        0
    } else {
        digits_val(t.drop_last()) * 10 + digit_val(t.last())
    }
}

proof fn lemma_digits_val_nonneg(t: Seq<char>)
    requires
        all_digits(t),
    ensures
        digits_val(t) >= 0,
    decreases t.len(),
{
    if t.len() > 0 {
        assert(all_digits(t.drop_last()));
        lemma_digits_val_nonneg(t.drop_last());
    }
}

/// Reading further digits never shrinks the value.
proof fn lemma_digits_val_mono(t: Seq<char>, i: int)
    requires
        all_digits(t),
        0 <= i <= t.len(),
    ensures
        digits_val(t) >= digits_val(t.take(i)),
    decreases t.len() - i,
{
    if i < t.len() {
        lemma_digits_val_mono(t, i + 1);
        assert(t.take(i + 1).drop_last() =~= t.take(i));
        assert(all_digits(t.take(i + 1)));
        lemma_digits_val_nonneg(t.take(i + 1));
        assert(all_digits(t.take(i)));
        lemma_digits_val_nonneg(t.take(i));
    } else {
        assert(t.take(i) =~= t);
    }
}

/// The unsigned 16-bit integer a token denotes: digits only, within range.
pub open spec fn spec_parse_u16(t: Seq<char>) -> Option<u16> {
    if t.len() > 0 && all_digits(t) && digits_val(t) <= u16::MAX {
        Some(digits_val(t) as u16)
    } else {
        None
    }
}

/// The signed 32-bit integer a token denotes: an optional leading minus
/// sign, then digits, within range.
pub open spec fn spec_parse_i32(t: Seq<char>) -> Option<i32> {
    if t.len() > 0 && t[0] == '-' {
        if t.len() > 1 && all_digits(t.drop_first()) && digits_val(t.drop_first())
            <= 0x8000_0000 {
            Some((-digits_val(t.drop_first())) as i32)
        } else {
            None
        }
    } else if t.len() > 0 && all_digits(t) && digits_val(t) <= i32::MAX {
        Some(digits_val(t) as i32)
    } else {
        None
    }
}

/// Parse the digit string `cs[lo..hi]` as a number, stopping as soon as the
/// value exceeds `limit`.
fn parse_digits(cs: &Vec<char>, lo: usize, hi: usize, limit: u32) -> (r: Option<u32>)
    requires
        lo <= hi <= cs@.len(),
        limit <= 0x8000_0000u32,
    ensures
        ({
            let t = cs@.subrange(lo as int, hi as int);
            match r {
                Some(v) => t.len() > 0 && all_digits(t) && digits_val(t) == v && v <= limit,
                None => t.len() == 0 || !all_digits(t) || digits_val(t) > limit,
            }
        }),
{
    let ghost t = cs@.subrange(lo as int, hi as int);
    if lo == hi {
        return None;
    }
    let mut acc: u32 = 0;
    let mut i: usize = lo;
    while i < hi
        invariant
            lo <= i <= hi <= cs@.len(),
            t == cs@.subrange(lo as int, hi as int),
            limit <= 0x8000_0000u32,
            acc <= limit,
            all_digits(t.take(i - lo)),
            digits_val(t.take(i - lo)) == acc,
        decreases hi - i,
    {
        let c = cs[i];
        if c < '0' || c > '9' {
            proof {
                assert(t[i - lo] == cs@[i as int]);
                assert(!is_digit(t[i - lo]));
            }
            return None;
        }
        let d: u32 = (c as u32) - 48;
        proof {
            assert(t[i - lo] == cs@[i as int]);
            assert(is_digit(t[i - lo]));
            assert(digit_val(t[i - lo]) == d);
        }
        let next: u64 = (acc as u64) * 10 + (d as u64);
        proof {
            assert(t.take(i - lo + 1).drop_last() =~= t.take(i - lo));
            assert(t.take(i - lo + 1).last() == t[i - lo]);
        }
        if next > limit as u64 {
            proof {
                assert(all_digits(t.take(i - lo + 1)));
                assert(digits_val(t.take(i - lo + 1)) == next);
                if all_digits(t) {
                    lemma_digits_val_mono(t, i - lo + 1);
                }
            }
            return None;
        }
        acc = next as u32;
        i = i + 1;
    }
    proof {
        assert(t.take(hi - lo) =~= t);
    }
    Some(acc)
}

/// Parse `cs[lo..hi]` as an unsigned 16-bit whitelist entry.
fn parse_u16_range(cs: &Vec<char>, lo: usize, hi: usize) -> (r: Option<u16>)
    requires
        lo <= hi <= cs@.len(),
    ensures
        ({
            let t = cs@.subrange(lo as int, hi as int);
            match r {
                Some(v) => spec_parse_u16(t) == Some(v),
                None => spec_parse_u16(t) is None,
            }
        }),
{
    match parse_digits(cs, lo, hi, 65535) {
        Some(v) => Some(v as u16),
        None => None,
    }
}

/// Parse `cs[lo..hi]` as a signed 32-bit whitelist entry.
fn parse_i32_range(cs: &Vec<char>, lo: usize, hi: usize) -> (r: Option<i32>)
    requires
        lo <= hi <= cs@.len(),
    ensures
        ({
            let t = cs@.subrange(lo as int, hi as int);
            match r {
                Some(v) => spec_parse_i32(t) == Some(v),
                None => spec_parse_i32(t) is None,
            }
        }),
{
    let ghost t = cs@.subrange(lo as int, hi as int);
    if lo < hi && cs[lo] == '-' {
        proof {
            assert(t[0] == cs@[lo as int]);
            assert(t.drop_first() =~= cs@.subrange(lo + 1, hi as int));
        }
        match parse_digits(cs, lo + 1, hi, 0x8000_0000u32) {
            Some(v) => {
                let r: i64 = -(v as i64);
                proof {
                    let dv = digits_val(t.drop_first());
                    assert(dv == v);
                    assert(-dv == r);
                    assert(i32::MIN <= r <= i32::MAX);
                    assert((-dv) as i32 == r as i32);
                }
                Some(r as i32)
            },
            None => None,
        }
    } else {
        proof {
            if t.len() > 0 {
                assert(t[0] == cs@[lo as int]);
            }
        }
        match parse_digits(cs, lo, hi, 0x7fff_ffffu32) {
            Some(v) => Some(v as i32),
            None => None,
        }
    }
}

/// The non-empty pieces of a comma-separated list, in order.
pub open spec fn csv_strings(toks: Seq<Seq<char>>) -> Seq<Seq<char>>
    decreases toks.len(),
{
    if toks.len() == 0 {
        Seq::empty()
    } else {
        csv_strings(toks.drop_last()) + (if toks.last().len() > 0 {
            seq![toks.last()]
        } else {
            Seq::empty()
        })
    }
}

/// The pieces of a comma-separated list that denote unsigned 16-bit
/// integers, in order.
pub open spec fn csv_u16(toks: Seq<Seq<char>>) -> Seq<u16>
    decreases toks.len(),
{
    if toks.len() == 0 {
        Seq::empty()
    } else {
        csv_u16(toks.drop_last()) + (match spec_parse_u16(toks.last()) {
            Some(v) => seq![v],
            None => Seq::empty(),
        })
    }
}

/// The pieces of a comma-separated list that denote signed 32-bit
/// integers, in order.
pub open spec fn csv_i32(toks: Seq<Seq<char>>) -> Seq<i32>
    decreases toks.len(),
{
    if toks.len() == 0 {
        Seq::empty()
    } else {
        csv_i32(toks.drop_last()) + (match spec_parse_i32(toks.last()) {
            Some(v) => seq![v],
            None => Seq::empty(),
        })
    }
}

/// Split a comma-separated value into its non-empty entries.
fn split_class_list(s: &String) -> (r: Vec<String>)
    ensures
        Seq::new(r@.len(), |i: int| r@[i]@) == csv_strings(split_char(s@, ',')),
{
    let cs = str_chars(s.as_str());
    let n = cs.len();
    let toks = split_ranges_in(&cs, 0, n, ',');
    let ghost tseq = split_char(s@, ',');
    proof {
        assert(cs@.subrange(0, n as int) =~= s@);
    }
    let tn = toks.len();
    let mut r: Vec<String> = Vec::new();
    let mut i: usize = 0;
    while i < tn
        invariant
            i <= tn,
            tn == tseq.len(),
            cs@ == s@,
            tseq == split_char(s@, ','),
            toks@.len() == tseq.len(),
            forall|k: int|
                0 <= k < toks@.len() ==> (#[trigger] toks@[k]).0 <= toks@[k].1 <= cs@.len()
                    && tseq[k] == cs@.subrange(toks@[k].0 as int, toks@[k].1 as int),
            Seq::new(r@.len(), |j: int| r@[j]@) == csv_strings(tseq.take(i as int)),
        decreases tn - i,
    {
        let (ta, tb) = (toks[i].0, toks[i].1);
        if tb > ta {
            let piece = s.as_str().substring_char(ta, tb).to_owned();
            r.push(piece);
        }
        i = i + 1;
        proof {
            assert(tseq.take(i as int).drop_last() =~= tseq.take(i - 1));
            assert(tseq.take(i as int).last() == tseq[i - 1]);
            assert(Seq::new(r@.len(), |j: int| r@[j]@) =~= csv_strings(tseq.take(i as int)));
        }
    }
    proof {
        assert(tseq.take(tn as int) =~= tseq);
    }
    r
}

/// Split a comma-separated value into the unsigned 16-bit integers among
/// its entries.
fn split_u16_list(s: &String) -> (r: Vec<u16>)
    ensures
        r@ == csv_u16(split_char(s@, ',')),
{
    let cs = str_chars(s.as_str());
    let n = cs.len();
    let toks = split_ranges_in(&cs, 0, n, ',');
    let ghost tseq = split_char(s@, ',');
    proof {
        assert(cs@.subrange(0, n as int) =~= s@);
    }
    let tn = toks.len();
    let mut r: Vec<u16> = Vec::new();
    let mut i: usize = 0;
    while i < tn
        invariant
            i <= tn,
            tn == tseq.len(),
            cs@ == s@,
            tseq == split_char(s@, ','),
            toks@.len() == tseq.len(),
            forall|k: int|
                0 <= k < toks@.len() ==> (#[trigger] toks@[k]).0 <= toks@[k].1 <= cs@.len()
                    && tseq[k] == cs@.subrange(toks@[k].0 as int, toks@[k].1 as int),
            r@ == csv_u16(tseq.take(i as int)),
        decreases tn - i,
    {
        let (ta, tb) = (toks[i].0, toks[i].1);
        match parse_u16_range(&cs, ta, tb) {
            Some(v) => {
                r.push(v);
            },
            None => {},
        }
        i = i + 1;
        proof {
            assert(tseq.take(i as int).drop_last() =~= tseq.take(i - 1));
            assert(tseq.take(i as int).last() == tseq[i - 1]);
            assert(r@ =~= csv_u16(tseq.take(i as int)));
        }
    }
    proof {
        assert(tseq.take(tn as int) =~= tseq);
    }
    r
}

/// Split a comma-separated value into the signed 32-bit integers among its
/// entries.
fn split_i32_list(s: &String) -> (r: Vec<i32>)
    ensures
        r@ == csv_i32(split_char(s@, ',')),
{
    let cs = str_chars(s.as_str());
    let n = cs.len();
    let toks = split_ranges_in(&cs, 0, n, ',');
    let ghost tseq = split_char(s@, ',');
    proof {
        assert(cs@.subrange(0, n as int) =~= s@);
    }
    let tn = toks.len();
    let mut r: Vec<i32> = Vec::new();
    let mut i: usize = 0;
    while i < tn
        invariant
            i <= tn,
            tn == tseq.len(),
            cs@ == s@,
            tseq == split_char(s@, ','),
            toks@.len() == tseq.len(),
            forall|k: int|
                0 <= k < toks@.len() ==> (#[trigger] toks@[k]).0 <= toks@[k].1 <= cs@.len()
                    && tseq[k] == cs@.subrange(toks@[k].0 as int, toks@[k].1 as int),
            r@ == csv_i32(tseq.take(i as int)),
        decreases tn - i,
    {
        let (ta, tb) = (toks[i].0, toks[i].1);
        match parse_i32_range(&cs, ta, tb) {
            Some(v) => {
                r.push(v);
            },
            None => {},
        }
        i = i + 1;
        proof {
            assert(tseq.take(i as int).drop_last() =~= tseq.take(i - 1));
            assert(tseq.take(i as int).last() == tseq[i - 1]);
            assert(r@ =~= csv_i32(tseq.take(i as int)));
        }
    }
    proof {
        assert(tseq.take(tn as int) =~= tseq);
    }
    r
}

/// The device-class whitelist the configuration states: the non-empty
/// entries of the `acpi` section's `device_class_whitelist` value, or
/// nothing when the value is absent.
pub open spec fn spec_acpi_whitelist(conf: ini::Ini) -> Seq<Seq<char>> {
    match ini_entry(conf, "acpi"@, "device_class_whitelist"@) {
        Some(s) => csv_strings(split_char(s, ',')),
        None => Seq::empty(),
    }
}

/// One integer whitelist of the `evdev` section, `None` entry meaning
/// absent.
pub open spec fn spec_evdev_u16_list(conf: ini::Ini, key: Seq<char>) -> Seq<u16> {
    match ini_entry(conf, "evdev"@, key) {
        Some(s) => csv_u16(split_char(s, ',')),
        None => Seq::empty(),
    }
}

/// The `evdev` value whitelist stated by the configuration.
pub open spec fn spec_evdev_i32_list(conf: ini::Ini, key: Seq<char>) -> Seq<i32> {
    match ini_entry(conf, "evdev"@, key) {
        Some(s) => csv_i32(split_char(s, ',')),
        None => Seq::empty(),
    }
}

/// Whether the configuration asks for the timer to reset on input: a
/// `timer` section whose `reset_on_input` value reads exactly `true`.
pub open spec fn spec_timer_input(conf: ini::Ini) -> bool {
    match ini_entry(conf, "timer"@, "reset_on_input"@) {
        Some(s) => s == "true"@,
        None => false,
    }
}

/// Build the power-event filter from the configuration.
pub fn parse_acpi_config(conf: &ini::Ini) -> (r: AcpiFilter)
    ensures
        r@ == spec_acpi_whitelist(*conf),
{
    let whitelist = match ini_lookup(conf, "acpi", "device_class_whitelist") {
        Some(wl) => split_class_list(&wl),
        None => Vec::new(),
    };
    let r = AcpiFilter::new(whitelist);
    proof {
        assert(r@ =~= spec_acpi_whitelist(*conf));
    }
    r
}

/// Build the input-event filter from the configuration.
pub fn parse_evdev_config(conf: &ini::Ini) -> (r: EvdevFilter)
    ensures
        r@.types == spec_evdev_u16_list(*conf, "type_whitelist"@),
        r@.codes == spec_evdev_u16_list(*conf, "code_whitelist"@),
        r@.values == spec_evdev_i32_list(*conf, "value_whitelist"@),
{
    let type_whitelist = match ini_lookup(conf, "evdev", "type_whitelist") {
        Some(s) => split_u16_list(&s),
        None => Vec::new(),
    };
    let code_whitelist = match ini_lookup(conf, "evdev", "code_whitelist") {
        Some(s) => split_u16_list(&s),
        None => Vec::new(),
    };
    let value_whitelist = match ini_lookup(conf, "evdev", "value_whitelist") {
        Some(s) => split_i32_list(&s),
        None => Vec::new(),
    };
    EvdevFilter::new(type_whitelist, code_whitelist, value_whitelist)
}

/// Read the timer section's reset-on-input flag from the configuration.
pub fn parse_timer_config(conf: &ini::Ini) -> (r: bool)
    ensures
        r == spec_timer_input(*conf),
{
    match ini_lookup(conf, "timer", "reset_on_input") {
        Some(v) => {
            proof {
                reveal_strlit("true");
            }
            let cs = str_chars(v.as_str());
            let pat = str_chars("true");
            let n = cs.len();
            if n == 4 {
                let r = crate::text::range_has_prefix(&cs, 0, n, &pat);
                proof {
                    if r {
                        assert(cs@.subrange(0, 4) =~= cs@);
                    }
                    if v@ == "true"@ {
                        assert(cs@.subrange(0, 4) =~= cs@);
                    }
                }
                r
            } else {
                proof {
                    assert(v@ != "true"@);
                }
                false
            }
        },
        None => false,
    }
}

/// The filters and flags one configuration file states.
pub struct CfgFile {
    pub acpi: AcpiFilter,
    pub evdev: EvdevFilter,
    pub input: bool,
}

/// The daemon's effective settings: the plugin library to load and the
/// configuration-file contents.
pub struct PArgs {
    pub lib_path: String,
    pub config_file: CfgFile,
}

/// Assemble every setting the parsed configuration file states.
pub fn parse_config(conf: &ini::Ini) -> (r: CfgFile)
    ensures
        r.acpi@ == spec_acpi_whitelist(*conf),
        r.evdev@.types == spec_evdev_u16_list(*conf, "type_whitelist"@),
        r.evdev@.codes == spec_evdev_u16_list(*conf, "code_whitelist"@),
        r.evdev@.values == spec_evdev_i32_list(*conf, "value_whitelist"@),
        r.input == spec_timer_input(*conf),
{
    let acpi_section = parse_acpi_config(conf);
    let evdev_section = parse_evdev_config(conf);
    let input = parse_timer_config(conf);
    CfgFile { acpi: acpi_section, evdev: evdev_section, input }
}

} // verus!
