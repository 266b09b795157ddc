//! The configuration surface: reading interactive entries leniently (an
//! invalid entry falls back to its stated default), choosing the output
//! encoding, and normalizing the destination name's extension to match it.
//!
//! Timeouts are held in milliseconds; a seconds entry such as `4.5` is a
//! fixed-point text read at millisecond resolution.

use vstd::prelude::*;
use crate::text::all_digits;
use crate::text::dec_val;
use crate::text::digit_val;
use crate::text::find_char;
use crate::text::find_char_from;
use crate::text::lemma_find_char_bounds;
use crate::text::lemma_dec_val_nonneg;
use crate::text::parse_u64_field;
use crate::text::parse_u64_field_exec;
use crate::text::chars_of_str;
use crate::text::string_of_chars;
use crate::text::subrange_chars;
use crate::text::push_all;

verus! {

/// The two snapshot encodings a destination can hold.
#[derive(Clone, Copy, Debug, PartialEq, Eq, Structural)]
pub enum OutputKind {
    Json,
    Csv,
}

/// Case-insensitive equality of two ASCII characters.
pub open spec fn ascii_eq_ci(a: char, b: char) -> bool {
    ||| a as u32 == b as u32
    ||| (65 <= a as u32 <= 90 && b as u32 == a as u32 + 32)
    ||| (65 <= b as u32 <= 90 && a as u32 == b as u32 + 32)
}

/// Case-insensitive equality of two texts.
pub open spec fn eq_ci(s: Seq<char>, t: Seq<char>) -> bool {
    s.len() == t.len() && (forall|i: int| 0 <= i < s.len() ==> ascii_eq_ci(#[trigger] s[i], t[i]))
}

/// Whether `s` ends with `suffix`, ignoring ASCII case.
pub open spec fn ends_with_ci(s: Seq<char>, suffix: Seq<char>) -> bool {
    s.len() >= suffix.len() && eq_ci(s.subrange(s.len() - suffix.len(), s.len() as int), suffix)
}

/// Whether `s` ends with `suffix`, exactly.
pub open spec fn ends_with(s: Seq<char>, suffix: Seq<char>) -> bool {
    s.len() >= suffix.len() && s.subrange(s.len() - suffix.len(), s.len() as int) == suffix
}

/// Case-insensitive comparison of two character vectors.
fn eq_ci_exec(a: &Vec<char>, b: &Vec<char>) -> (r: bool)
    ensures
        r == eq_ci(a@, b@),
{
    if a.len() != b.len() {
        return false;
    }
    let mut i: usize = 0;
    while i < a.len()
        invariant
            i <= a@.len(),
            a@.len() == b@.len(),
            forall|k: int| 0 <= k < i ==> ascii_eq_ci(#[trigger] a@[k], b@[k]),
        decreases a@.len() - i,
    {
        let x = a[i] as u32;
        let y = b[i] as u32;
        let same = x == y || (65 <= x && x <= 90 && y == x + 32) || (65 <= y && y <= 90 && x == y
            + 32);
        if !same {
            proof {
                assert(!ascii_eq_ci(a@[i as int], b@[i as int]));
            }
            return false;
        }
        i += 1;
    }
    true
}

/// Whether `s` ends with `suffix`, ignoring ASCII case.
fn ends_with_ci_exec(s: &Vec<char>, suffix: &Vec<char>) -> (r: bool)
    ensures
        r == ends_with_ci(s@, suffix@),
{
    if s.len() < suffix.len() {
        return false;
    }
    let tail = subrange_chars(s, s.len() - suffix.len(), s.len());
    eq_ci_exec(&tail, suffix)
}

/// The text an output kind is selected by.
pub open spec fn kind_name(kind: OutputKind) -> Seq<char> {
    match kind {
        OutputKind::Json => "json"@,
        OutputKind::Csv => "csv"@,
    }
}

/// The extension text of an output kind, with its dot.
pub open spec fn ext_text(kind: OutputKind) -> Seq<char> {
    match kind {
        OutputKind::Json => ".json"@,
        OutputKind::Csv => ".csv"@,
    }
}

/// The extension text of an output kind, without the dot.
pub open spec fn ext_bare(kind: OutputKind) -> Seq<char> {
    match kind {
        OutputKind::Json => "json"@,
        OutputKind::Csv => "csv"@,
    }
}

/// What an output-kind entry selects: `csv` or `json` in any ASCII case,
/// anything else selects nothing.
pub open spec fn output_kind_of(s: Seq<char>) -> Option<OutputKind> {
    if eq_ci(s, "csv"@) {
        Some(OutputKind::Csv)
    } else if eq_ci(s, "json"@) {
        Some(OutputKind::Json)
    } else {
        None
    }
}

/// Read an output-kind entry.
pub fn parse_output_kind(input: &str) -> (r: Option<OutputKind>)
    ensures
        r == output_kind_of(input@),
{
    let chars = chars_of_str(input);
    let csv = chars_of_str("csv");
    let json = chars_of_str("json");
    if eq_ci_exec(&chars, &csv) {
        Some(OutputKind::Csv)
    } else if eq_ci_exec(&chars, &json) {
        Some(OutputKind::Json)
    } else {
        None
    }
}

/// The default destination name of an output kind.
pub fn default_output_name(kind: OutputKind) -> (r: String)
    ensures
        kind == OutputKind::Json ==> r@ == "ping_history.json"@,
        kind == OutputKind::Csv ==> r@ == "ping_history.csv"@,
{
    match kind {
        OutputKind::Json => String::from_str("ping_history.json"),
        OutputKind::Csv => String::from_str("ping_history.csv"),
    }
}

/// What a bounded-count or size entry yields: the default on an empty
/// entry; the value when it reads as a number at least `min_value`; the
/// default again — flagged invalid, so the operator is told — otherwise.
pub open spec fn int_entry_of(s: Seq<char>, default: Option<u64>, min_value: u64) -> (Option<
    u64,
>, bool) {
    if s.len() == 0 {
        (default, false)
    } else {
        match parse_u64_field(s) {
            Some(v) => if v >= min_value {
                (Some(v), false)
            } else {
                (default, true)
            },
            None => (default, true),
        }
    }
}

/// Read a numeric entry with a stated default and a least value; the
/// second result says whether the entry was invalid (so the fallback
/// should be reported).
pub fn int_entry(input: &str, default: Option<u64>, min_value: u64) -> (r: (Option<u64>, bool))
    ensures
        r == int_entry_of(input@, default, min_value),
{
    let chars = chars_of_str(input);
    if chars.len() == 0 {
        return (default, false);
    }
    match parse_u64_field_exec(&chars) {
        Some(v) => if v >= min_value {
            (Some(v), false)
        } else {
            (default, true)
        },
        None => (default, true),
    }
}

/// The millisecond value of the first three fraction digits.
pub open spec fn frac_millis(f: Seq<char>) -> int {
    (if f.len() >= 1 {
        digit_val(f[0]) * 100
    } else {
        0
    }) + (if f.len() >= 2 {
        digit_val(f[1]) * 10
    } else {
        0
    }) + (if f.len() >= 3 {
        digit_val(f[2])
    } else {
        0
    })
}

/// What a seconds entry reads as, in milliseconds: digits, optionally a
/// point and more digits, read at millisecond resolution; nothing when
/// the text is not such a number or the value does not fit.
pub open spec fn seconds_millis_of(s: Seq<char>) -> Option<u64> {
    let j = find_char(s, 0, '.');
    if j == s.len() {
        match parse_u64_field(s) {
            Some(v) => if v * 1000 <= u64::MAX {
                Some((v * 1000) as u64)
            } else {
                None
            },
            None => None,
        }
    } else {
        let ip = s.subrange(0, j);
        let fp = s.subrange(j + 1, s.len() as int);
        if all_digits(ip) && all_digits(fp) && ip.len() + fp.len() >= 1 && dec_val(ip) * 1000
            + frac_millis(fp) <= u64::MAX {
            Some((dec_val(ip) * 1000 + frac_millis(fp)) as u64)
        } else {
            None
        }
    }
}

/// Read a seconds entry, in milliseconds.
pub fn parse_seconds_millis(input: &str) -> (r: Option<u64>)
    ensures
        r == seconds_millis_of(input@),
{
    let chars = chars_of_str(input);
    let j = find_char_from(&chars, 0, '.');
    proof {
        lemma_find_char_bounds(chars@, 0, '.');
    }
    if j == chars.len() {
        match parse_u64_field_exec(&chars) {
            Some(v) => {
                if v <= u64::MAX / 1000 {
                    Some(v * 1000)
                } else {
                    None
                }
            },
            None => None,
        }
    } else {
        let ip = subrange_chars(&chars, 0, j);
        let fp = subrange_chars(&chars, j + 1, chars.len());
        if ip.len() == 0 && fp.len() == 0 {
            return None;
        }
        let vi = if ip.len() == 0 {
            0u64
        } else {
            match parse_u64_field_exec(&ip) {
                Some(v) => v,
                None => {
                    proof {
                        if all_digits(ip@) {
                            lemma_dec_val_nonneg(ip@);
                            assert(dec_val(ip@) * 1000 >= dec_val(ip@)) by (nonlinear_arith)
                                requires
                                    dec_val(ip@) >= 0,
                            ;
                        }
                    }
                    return None;
                },
            }
        };
        // the fraction must be digits throughout, whatever its length
        let mut i: usize = 0;
        while i < fp.len()
            invariant
                i <= fp@.len(),
                j == find_char(input@, 0, '.'),
                j < input@.len(),
                fp@ == input@.subrange(j + 1, input@.len() as int),
                ip@ == input@.subrange(0, j as int),
                forall|k: int| 0 <= k < i ==> crate::text::is_digit(#[trigger] fp@[k]),
            decreases fp@.len() - i,
        {
            let cv = fp[i] as u32;
            if cv < 48 || cv > 57 {
                proof {
                    assert(!crate::text::is_digit(fp@[i as int]));
                }
                return None;
            }
            i += 1;
        }
        let d1: u64 = if fp.len() >= 1 {
            (fp[0] as u32 - 48) as u64
        } else {
            0
        };
        let d2: u64 = if fp.len() >= 2 {
            (fp[1] as u32 - 48) as u64
        } else {
            0
        };
        let d3: u64 = if fp.len() >= 3 {
            (fp[2] as u32 - 48) as u64
        } else {
            0
        };
        let fm: u64 = d1 * 100 + d2 * 10 + d3;
        proof {
            assert(fm == frac_millis(fp@));
        }
        let wide: u128 = (vi as u128) * 1000 + fm as u128;
        proof {
            assert(all_digits(fp@));
            assert(all_digits(ip@));
            assert(dec_val(ip@) == vi) by {
                if ip@.len() == 0 {
                } else {
                    lemma_dec_val_nonneg(ip@);
                }
            }
        }
        if wide > u64::MAX as u128 {
            return None;
        }
        Some(wide as u64)
    }
}

/// What a seconds entry yields against a stated default: the default on
/// an empty entry, the parsed value when it reads, the default — flagged
/// invalid — otherwise.
pub open spec fn float_entry_of(s: Seq<char>, default_ms: u64) -> (u64, bool) {
    if s.len() == 0 {
        (default_ms, false)
    } else {
        match seconds_millis_of(s) {
            Some(v) => (v, false),
            None => (default_ms, true),
        }
    }
}

/// Read a timeout entry in seconds, with a stated default in
/// milliseconds; the second result says whether the entry was invalid.
pub fn float_entry(input: &str, default_ms: u64) -> (r: (u64, bool))
    ensures
        r == float_entry_of(input@, default_ms),
{
    let chars = chars_of_str(input);
    if chars.len() == 0 {
        return (default_ms, false);
    }
    match parse_seconds_millis(input) {
        Some(v) => (v, false),
        None => (default_ms, true),
    }
}

/// What a filename entry yields: the stated default on an empty entry;
/// the entry itself when it already carries the encoding's extension in
/// any ASCII case; the entry with the extension appended otherwise.
pub open spec fn filename_entry_of(s: Seq<char>, default_name: Seq<char>, kind: OutputKind) -> Seq<
    char,
> {
    if s.len() == 0 {
        default_name
    } else if ends_with_ci(s, ext_text(kind)) {
        s
    } else {
        s + ext_text(kind)
    }
}

/// Read a filename entry with a stated default, appending the selected
/// encoding's extension where it is missing.
pub fn filename_entry(input: &str, default_name: String, kind: OutputKind) -> (r: String)
    ensures
        r@ == filename_entry_of(input@, default_name@, kind),
{
    let chars = chars_of_str(input);
    if chars.len() == 0 {
        return default_name;
    }
    let ext = match kind {
        OutputKind::Json => chars_of_str(".json"),
        OutputKind::Csv => chars_of_str(".csv"),
    };
    if ends_with_ci_exec(&chars, &ext) {
        return string_of_chars(&chars);
    }
    let mut out = chars;
    push_all(&mut out, &ext);
    string_of_chars(&out)
}

/// The last position of `stop` in `s`, or `-1` when there is none.
pub open spec fn rfind_char(s: Seq<char>, stop: char) -> int
    decreases s.len(),
{
    if s.len() == 0 {
        -1
    } else if s.last() == stop {
        s.len() - 1
    } else {
        rfind_char(s.drop_last(), stop)
    }
}

/// Scan for the last occurrence of `stop`.
fn rfind_char_exec(s: &Vec<char>, stop: char) -> (r: Option<usize>)
    ensures
        match r {
            Option::Some(i) => rfind_char(s@, stop) == i && i < s@.len(),
            Option::None => rfind_char(s@, stop) == -1,
        },
{
    let mut i: usize = s.len();
    proof {
        assert(s@.take(s@.len() as int) =~= s@);
    }
    while i > 0
        invariant
            i <= s@.len(),
            rfind_char(s@, stop) == rfind_char(s@.take(i as int), stop),
        decreases i,
    {
        proof {
            assert(s@.take(i as int).drop_last() =~= s@.take(i - 1));
        }
        if s[i - 1] == stop {
            return Some(i - 1);
        }
        i -= 1;
    }
    proof {
        assert(s@.take(0) =~= Seq::<char>::empty());
    }
    None
}

/// A destination name with its extension replaced, as `set_extension`
/// does: within the last path component, everything after the last dot
/// (when that dot is not the component's first character) is replaced by
/// the new extension; a component without an extension has it appended.
pub open spec fn with_ext(p: Seq<char>, bare: Seq<char>) -> Seq<char> {
    let comp_start = rfind_char(p, '/') + 1;
    let comp = p.subrange(comp_start, p.len() as int);
    let dot = rfind_char(comp, '.');
    if dot > 0 {
        p.subrange(0, comp_start + dot) + seq!['.'] + bare
    } else {
        p + seq!['.'] + bare
    }
}

/// A destination name normalized to the selected encoding: unchanged when
/// it already ends with the encoding's extension, else with its extension
/// replaced.
pub open spec fn normalized_path(p: Seq<char>, kind: OutputKind) -> Seq<char> {
    if ends_with(p, ext_text(kind)) {
        p
    } else {
        with_ext(p, ext_bare(kind))
    }
}

/// Normalize a destination name to the selected encoding's extension.
pub fn normalize_output_path(path: &str, kind: OutputKind) -> (r: String)
    ensures
        r@ == normalized_path(path@, kind),
{
    let chars = chars_of_str(path);
    let ext = match kind {
        OutputKind::Json => chars_of_str(".json"),
        OutputKind::Csv => chars_of_str(".csv"),
    };
    let already = if chars.len() >= ext.len() {
        let tail = subrange_chars(&chars, chars.len() - ext.len(), chars.len());
        crate::text::eq_chars(&tail, &ext)
    } else {
        false
    };
    if already {
        return string_of_chars(&chars);
    }
    let comp_start = match rfind_char_exec(&chars, '/') {
        Some(i) => i + 1,
        None => 0,
    };
    let comp = subrange_chars(&chars, comp_start, chars.len());
    let dot = rfind_char_exec(&comp, '.');
    let mut out: Vec<char> = Vec::new();
    match dot {
        Some(d) if d > 0 => {
            let stem = subrange_chars(&chars, 0, comp_start + d);
            push_all(&mut out, &stem);
        },
        _ => {
            push_all(&mut out, &chars);
        },
    }
    out.push('.');
    let bare = match kind {
        OutputKind::Json => chars_of_str("json"),
        OutputKind::Csv => chars_of_str("csv"),
    };
    push_all(&mut out, &bare);
    proof {
        assert(out@ =~= normalized_path(path@, kind));
    }
    string_of_chars(&out)
}

} // verus!
