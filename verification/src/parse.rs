use vstd::prelude::*;
use vstd::string::StringSliceAdditionalSpecFns;

use crate::props::Properties;
use crate::Property;

verus! {

/// Value of an ASCII hexadecimal digit byte, upper or lower case.
pub open spec fn hex_digit_value(b: u8) -> Option<u32> {
    if 0x30 <= b <= 0x39 {
        Some((b - 0x30) as u32)
    } else if 0x61 <= b <= 0x66 {
        Some((b - 0x61 + 10) as u32)
    } else if 0x41 <= b <= 0x46 {
        Some((b - 0x41 + 10) as u32)
    } else {
        None
    }
}

/// Folds the hexadecimal digits of `bs[i..end]` onto `acc`; `None` on a
/// non-digit byte or once the value no longer fits in 32 bits.
pub open spec fn spec_parse_hex_range(bs: Seq<u8>, i: int, end: int, acc: int) -> Option<u32>
    decreases end - i,
{
    if i < 0 || i >= end || end > bs.len() {
        Some(acc as u32)
    } else {
        match hex_digit_value(bs[i]) {
            None => None,
            Some(d) => {
                let v = acc * 16 + d;
                if v > 0xFFFFFFFF {
                    None
                } else {
                    spec_parse_hex_range(bs, i + 1, end, v)
                }
            },
        }
    }
}

/// What `parse_codepoint` yields on the bytes `bs[i..end]`: an optional
/// leading `+`, then at least one hexadecimal digit, the value fitting in
/// 32 bits.
pub open spec fn spec_parse_codepoint_range(bs: Seq<u8>, i: int, end: int) -> Option<u32> {
    let start = if i < end && 0 <= i < bs.len() && bs[i] == 0x2B {
        i + 1
    } else {
        i
    };
    if start >= end {
        None
    } else {
        spec_parse_hex_range(bs, start, end, 0)
    }
}

/// Whether `b` is an ASCII whitespace byte.
pub open spec fn is_ws(b: u8) -> bool {
    b == 0x20 || 0x09 <= b <= 0x0D
}

/// First index at or after `i` where byte `x` occurs before `end`.
pub open spec fn spec_find_from(bs: Seq<u8>, x: u8, i: int, end: int) -> Option<int>
    decreases end - i,
{
    if i < 0 || i >= end || end > bs.len() {
        None
    } else if bs[i] == x {
        Some(i)
    } else {
        spec_find_from(bs, x, i + 1, end)
    }
}

/// First index at or after `i` that does not hold whitespace.
pub open spec fn spec_skip_ws(bs: Seq<u8>, i: int, end: int) -> int
    decreases end - i,
{
    if i < 0 || i >= end || end > bs.len() {
        i
    } else if is_ws(bs[i]) {
        spec_skip_ws(bs, i + 1, end)
    } else {
        i
    }
}

/// Largest exclusive end at or below `j` with no trailing whitespace.
pub open spec fn spec_trim_end(bs: Seq<u8>, start: int, j: int) -> int
    decreases j - start,
{
    if j <= start || j > bs.len() || j <= 0 {
        j
    } else if is_ws(bs[j - 1]) {
        spec_trim_end(bs, start, j - 1)
    } else {
        j
    }
}

/// First index at or after `i` where `..` occurs before `end`.
pub open spec fn spec_find_dots(bs: Seq<u8>, i: int, end: int) -> Option<int>
    decreases end - i,
{
    if i < 0 || i + 2 > end || end > bs.len() {
        None
    } else if bs[i] == 0x2E && bs[i + 1] == 0x2E {
        Some(i)
    } else {
        spec_find_dots(bs, i + 1, end)
    }
}

/// What `parse_line` yields on a line given as its UTF-8 bytes: the line
/// splits at the first `;` into a codepoint field and a name field; the
/// codepoint field, with ASCII whitespace trimmed, is either one
/// hexadecimal codepoint or a `lo..hi` range of two; the name is the
/// remainder up to the first `#`, ASCII whitespace trimmed on both sides,
/// and must be well-formed UTF-8 (on the bytes of a string it always is:
/// every cut point is an ASCII delimiter).
pub open spec fn spec_parse_line(bs: Seq<u8>) -> Option<(u32, u32, Seq<u8>)> {
    match spec_find_from(bs, 0x3B, 0, bs.len() as int) {
        None => None,
        Some(semi) => {
            let clo = spec_skip_ws(bs, 0, semi);
            let chi = spec_trim_end(bs, clo, semi);
            let parsed = match spec_find_dots(bs, clo, chi) {
                None => {
                    match spec_parse_codepoint_range(bs, clo, chi) {
                        None => None,
                        Some(v) => Some((v, v)),
                    }
                },
                Some(dots) => {
                    match (
                        spec_parse_codepoint_range(bs, clo, dots),
                        spec_parse_codepoint_range(bs, dots + 2, chi),
                    ) {
                        (Some(lo), Some(hi)) => Some((lo, hi)),
                        _ => None,
                    }
                },
            };
            match parsed {
                None => None,
                Some((lo, hi)) => {
                    let nlo = spec_skip_ws(bs, semi + 1, bs.len() as int);
                    let nend = spec_trim_end(bs, nlo, bs.len() as int);
                    let hash = match spec_find_from(bs, 0x23, nlo, nend) {
                        None => nend,
                        Some(h) => h,
                    };
                    let nhi = spec_trim_end(bs, nlo, hash);
                    let name = bs.subrange(nlo, if nhi < nlo { nlo } else { nhi });
                    if vstd::utf8::valid_utf8(name) {
                        Some((lo, hi, name))
                    } else {
                        None
                    }
                },
            }
        },
    }
}

/// Relies on alloc's `String::from_utf8`: it succeeds exactly on valid
/// UTF-8 input and preserves the bytes unchanged.
#[verifier::external_body]
fn string_from_utf8(v: Vec<u8>) -> (r: Option<String>)
    ensures
        match r {
            Some(s) => vstd::utf8::valid_utf8(v@) && s@ == vstd::utf8::decode_utf8(v@)
                && vstd::utf8::encode_utf8(s@) == v@,
            None => !vstd::utf8::valid_utf8(v@),
        },
{
    String::from_utf8(v).ok()
}

fn find_from(bytes: &[u8], x: u8, i: usize, end: usize) -> (r: Option<usize>)
    requires
        end <= bytes@.len(),
    ensures
        match r {
            Some(f) => i <= f < end && Some(f as int) == spec_find_from(
                bytes@,
                x,
                i as int,
                end as int,
            ),
            None => spec_find_from(bytes@, x, i as int, end as int) is None,
        },
{
    let mut j = i;
    while j < end
        invariant
            end <= bytes@.len(),
            i <= j,
            spec_find_from(bytes@, x, i as int, end as int) == spec_find_from(
                bytes@,
                x,
                j as int,
                end as int,
            ),
        decreases end - j,
    {
        if bytes[j] == x {
            return Some(j);
        }
        j = j + 1;
    }
    None
}

fn skip_ws(bytes: &[u8], i: usize, end: usize) -> (r: usize)
    requires
        end <= bytes@.len(),
        i <= end,
    ensures
        r as int == spec_skip_ws(bytes@, i as int, end as int),
        i <= r <= end,
{
    let mut j = i;
    while j < end && (bytes[j] == 0x20 || (0x09 <= bytes[j] && bytes[j] <= 0x0D))
        invariant
            end <= bytes@.len(),
            i <= j <= end,
            spec_skip_ws(bytes@, i as int, end as int) == spec_skip_ws(bytes@, j as int, end as int),
        decreases end - j,
    {
        j = j + 1;
    }
    j
}

fn trim_end(bytes: &[u8], start: usize, j: usize) -> (r: usize)
    requires
        j <= bytes@.len(),
        start <= j,
    ensures
        r as int == spec_trim_end(bytes@, start as int, j as int),
        start <= r <= j,
{
    let mut e = j;
    while e > start && (bytes[e - 1] == 0x20 || (0x09 <= bytes[e - 1] && bytes[e - 1] <= 0x0D))
        invariant
            j <= bytes@.len(),
            start <= e <= j,
            spec_trim_end(bytes@, start as int, j as int) == spec_trim_end(
                bytes@,
                start as int,
                e as int,
            ),
        decreases e,
    {
        e = e - 1;
    }
    e
}

fn find_dots(bytes: &[u8], i: usize, end: usize) -> (r: Option<usize>)
    requires
        end <= bytes@.len(),
    ensures
        match r {
            Some(f) => i <= f && f + 2 <= end && Some(f as int) == spec_find_dots(
                bytes@,
                i as int,
                end as int,
            ),
            None => spec_find_dots(bytes@, i as int, end as int) is None,
        },
{
    let mut j = i;
    while j < end && j + 1 < end
        invariant
            end <= bytes@.len(),
            i <= j,
            spec_find_dots(bytes@, i as int, end as int) == spec_find_dots(
                bytes@,
                j as int,
                end as int,
            ),
        decreases end - j,
    {
        if bytes[j] == 0x2E && bytes[j + 1] == 0x2E {
            return Some(j);
        }
        j = j + 1;
    }
    None
}

fn hex_digit(b: u8) -> (r: Option<u32>)
    ensures
        r == hex_digit_value(b),
{
    if 0x30 <= b && b <= 0x39 {
        Some((b - 0x30) as u32)
    } else if 0x61 <= b && b <= 0x66 {
        Some((b - 0x61) as u32 + 10)
    } else if 0x41 <= b && b <= 0x46 {
        Some((b - 0x41) as u32 + 10)
    } else {
        None
    }
}

fn parse_codepoint_range(bytes: &[u8], i: usize, end: usize) -> (r: Option<u32>)
    requires
        end <= bytes@.len(),
    ensures
        r == spec_parse_codepoint_range(bytes@, i as int, end as int),
{
    let mut j = i;
    if j < end && bytes[j] == 0x2B {
        j = j + 1;
    }
    if j >= end {
        return None;
    }
    let mut acc: u32 = 0;
    while j < end
        invariant
            end <= bytes@.len(),
            j <= end,
            spec_parse_hex_range(bytes@, if i < end && bytes@[i as int] == 0x2B {
                i + 1
            } else {
                i as int
            }, end as int, 0) == spec_parse_hex_range(bytes@, j as int, end as int, acc as int),
        decreases end - j,
    {
        let d = match hex_digit(bytes[j]) {
            Some(d) => d,
            None => {
                return None;
            },
        };
        if acc >= 0x10000000 {
            return None;
        }
        acc = acc * 16 + d;
        j = j + 1;
    }
    Some(acc)
}

/// Parses one hexadecimal codepoint, as the fields of the Unicode data
/// files write them: optional `+`, then hexadecimal digits of either case,
/// the value fitting in 32 bits.
pub fn parse_codepoint(s: &str) -> (r: Option<u32>)
    ensures
        r == spec_parse_codepoint_range(s.spec_bytes(), 0, s.spec_bytes().len() as int),
{
    let bytes = s.as_bytes();
    parse_codepoint_range(bytes, 0, bytes.len())
}

/// Parses one line of a Unicode data file: `lo..hi ; Name # comment` or
/// `cp ; Name # comment`, yielding the codepoint range and the name field.
/// Lines without a `;`, or with an unparsable codepoint field, yield
/// `None`. Whitespace handling is deliberately byte-level over the ASCII
/// whitespace characters only: a field padded with exotic Unicode
/// whitespace (say U+00A0) is not trimmed and is rejected, where a
/// `str::trim`-based reader would accept it. The data files contain no
/// such lines.
pub fn parse_line(line: &str) -> (r: Option<(u32, u32, String)>)
    ensures
        match r {
            Some(t) => {
                &&& spec_parse_line(line.spec_bytes()) matches Some(st)
                &&& st.0 == t.0
                &&& st.1 == t.1
                &&& t.2@ == vstd::utf8::decode_utf8(st.2)
                &&& vstd::utf8::encode_utf8(t.2@) == st.2
            },
            None => spec_parse_line(line.spec_bytes()) is None,
        },
{
    let bytes = line.as_bytes();
    let n = bytes.len();
    let semi = match find_from(bytes, 0x3B, 0, n) {
        Some(semi) => semi,
        None => {
            return None;
        },
    };
    let clo = skip_ws(bytes, 0, semi);
    let chi = trim_end(bytes, clo, semi);
    let parsed = match find_dots(bytes, clo, chi) {
        None => {
            match parse_codepoint_range(bytes, clo, chi) {
                None => None,
                Some(v) => Some((v, v)),
            }
        },
        Some(dots) => {
            match (
                parse_codepoint_range(bytes, clo, dots),
                parse_codepoint_range(bytes, dots + 2, chi),
            ) {
                (Some(lo), Some(hi)) => Some((lo, hi)),
                _ => None,
            }
        },
    };
    let (lo, hi) = match parsed {
        Some(pair) => pair,
        None => {
            return None;
        },
    };
    let nlo = skip_ws(bytes, semi + 1, n);
    let nend = trim_end(bytes, nlo, n);
    let hash = match find_from(bytes, 0x23, nlo, nend) {
        Some(h) => h,
        None => nend,
    };
    let nhi = trim_end(bytes, nlo, hash);
    let nhi = if nhi < nlo {
        nlo
    } else {
        nhi
    };
    let mut name_bytes: Vec<u8> = Vec::new();
    proof {
        assert(name_bytes@ =~= bytes@.subrange(nlo as int, nlo as int));
    }
    let mut t = nlo;
    while t < nhi
        invariant
            nlo <= t <= nhi,
            nhi <= bytes@.len(),
            name_bytes@ == bytes@.subrange(nlo as int, t as int),
        decreases nhi - t,
    {
        name_bytes.push(bytes[t]);
        proof {
            assert(name_bytes@ =~= bytes@.subrange(nlo as int, t + 1));
        }
        t = t + 1;
    }
    let name = match string_from_utf8(name_bytes) {
        Some(name) => name,
        None => {
            return None;
        },
    };
    Some((lo, hi, name))
}

/// The UTF-8 bytes of the property name `XID_Start`.
pub open spec fn xid_start_bytes() -> Seq<u8> {
    seq![0x58u8, 0x49u8, 0x44u8, 0x5Fu8, 0x53u8, 0x74u8, 0x61u8, 0x72u8, 0x74u8]
}

/// The UTF-8 bytes of the property name `XID_Continue`.
pub open spec fn xid_continue_bytes() -> Seq<u8> {
    seq![
        0x58u8,
        0x49u8,
        0x44u8,
        0x5Fu8,
        0x43u8,
        0x6Fu8,
        0x6Eu8,
        0x74u8,
        0x69u8,
        0x6Eu8,
        0x75u8,
        0x65u8,
    ]
}

/// Which property a name field selects, if any.
pub open spec fn spec_classify_name(bs: Seq<u8>) -> Option<Property> {
    if bs == xid_start_bytes() {
        Some(Property::Start)
    } else if bs == xid_continue_bytes() {
        Some(Property::Continue)
    } else {
        None
    }
}

/// What one data line does to the property sets.
pub enum LineEffect {
    /// A comment, a blank line, an unrelated property, or an empty range.
    Skip,
    /// A line the parser rejects.
    Malformed,
    /// Mark the codepoint range as having the property.
    Insert(Property, u32, u32),
}

/// The effect of one data line: comment and blank lines are skipped, a
/// line the parser rejects is refused, an `XID_Start` or `XID_Continue`
/// line inserts its range clamped to the codepoint limit, and any other
/// property name is skipped.
pub open spec fn spec_line_effect(bs: Seq<u8>) -> LineEffect {
    if (bs.len() > 0 && bs[0] == 0x23) || spec_skip_ws(bs, 0, bs.len() as int) == bs.len() {
        LineEffect::Skip
    } else {
        match spec_parse_line(bs) {
            None => LineEffect::Malformed,
            Some((lo, hi, name)) => {
                let hc: u32 = if hi > 0x10FFFF {
                    0x10FFFF
                } else {
                    hi
                };
                match spec_classify_name(name) {
                    None => LineEffect::Skip,
                    Some(p0) => if lo <= hc {
                        LineEffect::Insert(p0, lo, hc)
                    } else {
                        LineEffect::Skip
                    },
                }
            },
        }
    }
}

/// Byte-wise slice comparison.
fn bytes_eq(a: &[u8], b: &[u8]) -> (r: bool)
    ensures
        r == (a@ == b@),
{
    if a.len() != b.len() {
        return false;
    }
    let mut i: usize = 0;
    while i < a.len()
        invariant
            a@.len() == b@.len(),
            i <= a@.len(),
            forall|k: int| 0 <= k < i ==> a@[k] == b@[k],
        decreases a@.len() - i,
    {
        if a[i] != b[i] {
            return false;
        }
        i = i + 1;
    }
    proof {
        assert(a@ =~= b@);
    }
    true
}

/// Matches a name field against the two property names.
fn classify_name(name: &str) -> (r: Option<Property>)
    ensures
        r == spec_classify_name(name.spec_bytes()),
{
    let nb = name.as_bytes();
    let mut start_name: Vec<u8> = Vec::new();
    start_name.push(0x58);
    start_name.push(0x49);
    start_name.push(0x44);
    start_name.push(0x5F);
    start_name.push(0x53);
    start_name.push(0x74);
    start_name.push(0x61);
    start_name.push(0x72);
    start_name.push(0x74);
    proof {
        assert(start_name@ =~= xid_start_bytes());
    }
    if bytes_eq(nb, start_name.as_slice()) {
        return Some(Property::Start);
    }
    let mut continue_name: Vec<u8> = Vec::new();
    continue_name.push(0x58);
    continue_name.push(0x49);
    continue_name.push(0x44);
    continue_name.push(0x5F);
    continue_name.push(0x43);
    continue_name.push(0x6F);
    continue_name.push(0x6E);
    continue_name.push(0x74);
    continue_name.push(0x69);
    continue_name.push(0x6E);
    continue_name.push(0x75);
    continue_name.push(0x65);
    proof {
        assert(continue_name@ =~= xid_continue_bytes());
    }
    if bytes_eq(nb, continue_name.as_slice()) {
        return Some(Property::Continue);
    }
    None
}

/// Applies one line of the property data file to the sets, as the reading
/// loop does line by line: comments, blank lines, foreign properties and
/// empty ranges leave the sets untouched, an `XID_Start`/`XID_Continue`
/// line inserts its codepoint range clamped to the codepoint limit, and a
/// line the parser rejects is reported with `false`, the sets untouched.
/// Blank-line detection, like the parser's trimming, covers the ASCII
/// whitespace characters only.
pub fn apply_data_line(props: &mut Properties, line: &str) -> (r: bool)
    requires
        old(props).wf(),
    ensures
        final(props).wf(),
        final(props).spec_unicode_version() == old(props).spec_unicode_version(),
        r == !(spec_line_effect(line.spec_bytes()) is Malformed),
        match spec_line_effect(line.spec_bytes()) {
            LineEffect::Insert(p0, lo, hi) => forall|p: Property, c: int|
                final(props).has(p, c) == (old(props).has(p, c) || (p == p0 && lo <= c <= hi)),
            _ => forall|p: Property, c: int| final(props).has(p, c) == old(props).has(p, c),
        },
{
    let bytes = line.as_bytes();
    let n = bytes.len();
    if n > 0 && bytes[0] == 0x23 {
        return true;
    }
    if skip_ws(bytes, 0, n) == n {
        return true;
    }
    let (lo, hi, name) = match parse_line(line) {
        Some(t) => t,
        None => {
            return false;
        },
    };
    let p0 = match classify_name(name.as_str()) {
        Some(p0) => p0,
        None => {
            return true;
        },
    };
    let hc: u32 = if hi > 0x10FFFF {
        0x10FFFF
    } else {
        hi
    };
    if lo <= hc {
        props.insert_range(p0, lo, hc);
    }
    true
}

} // verus!
