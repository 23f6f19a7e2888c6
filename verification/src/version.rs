use vstd::prelude::*;
use vstd::string::StrSliceExecFns;
use vstd::string::StringExecFns;

verus! {

/// The first three capture groups of the first match of `pattern` in
/// `text`: regex matching is a function of the two strings alone. `None`
/// stands for an invalid pattern, a text without a match, or an absent
/// group.
pub uninterp spec fn version_captures_of(pattern: Seq<char>, text: Seq<char>) -> Option<
    (Seq<char>, Seq<char>, Seq<char>),
>;

/// Relies on regex::Regex::new and regex::Regex::captures: compiling a
/// pattern and searching a text with it is deterministic in the two
/// strings; the first three capture groups of the first match come back.
/// (String's formatting machinery is not involved; the groups are copied
/// out as owned strings.)
#[verifier::external_body]
fn capture_three(pattern: &str, text: &str) -> (r: Option<(String, String, String)>)
    ensures
        match r {
            Some(caps) => version_captures_of(pattern@, text@) == Some(
                (caps.0@, caps.1@, caps.2@),
            ),
            None => version_captures_of(pattern@, text@) is None,
        },
{
    let re = match regex::Regex::new(pattern) {
        Ok(re) => re,
        Err(_) => return None,
    };
    let caps = re.captures(text)?;
    match (caps.get(1), caps.get(2), caps.get(3)) {
        (Some(a), Some(b), Some(c)) => Some(
            (a.as_str().to_owned(), b.as_str().to_owned(), c.as_str().to_owned()),
        ),
        _ => None,
    }
}

/// Value of a decimal digit character.
pub open spec fn dec_digit_value(c: char) -> Option<int> {
    if 0x30 <= c as int <= 0x39 {
        Some(c as int - 0x30)
    } else {
        None
    }
}

/// Folds the decimal digits of `s[i..]` onto `acc`; `None` on a non-digit
/// or once the value no longer fits in 64 bits.
pub open spec fn spec_parse_dec(s: Seq<char>, i: int, acc: int) -> Option<u64>
    decreases s.len() - i,
{
    if i < 0 || i >= s.len() {
        Some(acc as u64)
    } else {
        match dec_digit_value(s[i]) {
            None => None,
            Some(d) => {
                let v = acc * 10 + d;
                if v > 0xFFFF_FFFF_FFFF_FFFF {
                    None
                } else {
                    spec_parse_dec(s, i + 1, v)
                }
            },
        }
    }
}

/// A non-empty all-digit string as a 64-bit number.
pub open spec fn spec_parse_u64(s: Seq<char>) -> Option<u64> {
    if s.len() == 0 {
        None
    } else {
        spec_parse_dec(s, 0, 0)
    }
}

/// Parses a capture group as a decimal number.
fn parse_u64(s: &str) -> (r: Option<u64>)
    ensures
        r == spec_parse_u64(s@),
{
    let len = s.unicode_len();
    if len == 0 {
        return None;
    }
    let mut acc: u64 = 0;
    let mut i: usize = 0;
    while i < len
        invariant
            len == s@.len(),
            i <= len,
            spec_parse_dec(s@, 0, 0) == spec_parse_dec(s@, i as int, acc as int),
        decreases len - i,
    {
        let c = s.get_char(i);
        let u = c as u32;
        if u < 0x30 || u > 0x39 {
            return None;
        }
        let d = (u - 0x30) as u64;
        proof {
            vstd::arithmetic::div_mod::lemma_fundamental_div_mod(
                0xFFFF_FFFF_FFFF_FFFFu64 - d,
                10,
            );
        }
        if acc > (0xFFFF_FFFF_FFFF_FFFFu64 - d) / 10 {
            return None;
        }
        acc = acc * 10 + d;
        i = i + 1;
    }
    Some(acc)
}

/// Index of the last `.` strictly below `j`.
pub open spec fn spec_rfind_dot(s: Seq<char>, j: int) -> Option<int>
    decreases j,
{
    if j <= 0 || j > s.len() {
        None
    } else if s[j - 1] == '.' {
        Some(j - 1)
    } else {
        spec_rfind_dot(s, j - 1)
    }
}

/// The pattern the version is searched with: `# {name}-(\d+).(\d+).(\d+).{extension}`.
pub open spec fn version_pattern(name: Seq<char>, extension: Seq<char>) -> Seq<char> {
    seq!['#', ' '] + name + seq![
        '-',
        '(',
        '\\',
        'd',
        '+',
        ')',
        '.',
        '(',
        '\\',
        'd',
        '+',
        ')',
        '.',
        '(',
        '\\',
        'd',
        '+',
        ')',
        '.',
    ] + extension
}

/// What `parse_unicode_version` yields: the data file's name splits at its
/// last `.` into name and extension, the version pattern built from the two
/// is matched against the file's contents, and the three captures are read
/// as decimal numbers.
pub open spec fn spec_parse_unicode_version(filename: &str, contents: &str) -> Option<
    (u64, u64, u64),
> {
    match spec_rfind_dot(filename@, filename@.len() as int) {
        None => None,
        Some(d) => {
            let pattern = version_pattern(
                filename@.subrange(0, d),
                filename@.subrange(d + 1, filename@.len() as int),
            );
            match version_captures_of(pattern, contents@) {
                None => None,
                Some(caps) => {
                    match (spec_parse_u64(caps.0), spec_parse_u64(caps.1), spec_parse_u64(
                        caps.2,
                    )) {
                        (Some(x), Some(y), Some(z)) => Some((x, y, z)),
                        _ => None,
                    }
                },
            }
        },
    }
}

fn rfind_dot(s: &str, len: usize) -> (r: Option<usize>)
    requires
        len == s@.len(),
    ensures
        match r {
            Some(d) => d < len && Some(d as int) == spec_rfind_dot(s@, len as int),
            None => spec_rfind_dot(s@, len as int) is None,
        },
{
    let mut j: usize = len;
    while j > 0
        invariant
            len == s@.len(),
            j <= len,
            spec_rfind_dot(s@, len as int) == spec_rfind_dot(s@, j as int),
        decreases j,
    {
        if s.get_char(j - 1) == '.' {
            return Some(j - 1);
        }
        j = j - 1;
    }
    None
}

/// Extracts the Unicode version stamped into a data file: the comment line
/// `# {name}-{major}.{minor}.{patch}.{extension}` that names the file
/// itself. `None` where no version can be read out of the contents.
pub fn parse_unicode_version(filename: &str, contents: &str) -> (r: Option<(u64, u64, u64)>)
    ensures
        r == spec_parse_unicode_version(filename, contents),
{
    let len = filename.unicode_len();
    let d = match rfind_dot(filename, len) {
        Some(d) => d,
        None => {
            return None;
        },
    };
    let name = filename.substring_char(0, d);
    let extension = filename.substring_char(d + 1, len);
    let mut pattern: String = "# ".to_owned();
    pattern.append(name);
    pattern.append("-(\\d+).(\\d+).(\\d+).");
    pattern.append(extension);
    proof {
        reveal_strlit("# ");
        reveal_strlit("-(\\d+).(\\d+).(\\d+).");
        assert(pattern@ =~= version_pattern(
            filename@.subrange(0, d as int),
            filename@.subrange(d + 1, len as int),
        ));
    }
    let caps = match capture_three(pattern.as_str(), contents) {
        Some(caps) => caps,
        None => {
            return None;
        },
    };
    let x = parse_u64(caps.0.as_str());
    let y = parse_u64(caps.1.as_str());
    let z = parse_u64(caps.2.as_str());
    match (x, y, z) {
        (Some(x), Some(y), Some(z)) => Some((x, y, z)),
        _ => None,
    }
}

} // verus!
