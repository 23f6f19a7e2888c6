use unicode_ident::output::Output;
use unicode_ident::parse::{apply_data_line, parse_codepoint, parse_line};
use unicode_ident::props::Properties;
use unicode_ident::version::parse_unicode_version;

#[test]
fn codepoint_plain() {
    assert_eq!(parse_codepoint("0041"), Some(0x41));
    assert_eq!(parse_codepoint("10FFFF"), Some(0x10FFFF));
    assert_eq!(parse_codepoint("abcdef"), Some(0xABCDEF));
    assert_eq!(parse_codepoint("ABCDEF"), Some(0xABCDEF));
}

#[test]
fn codepoint_rejects() {
    assert_eq!(parse_codepoint(""), None);
    assert_eq!(parse_codepoint("+"), None);
    assert_eq!(parse_codepoint("xyz"), None);
    assert_eq!(parse_codepoint("0041 "), None);
    assert_eq!(parse_codepoint("-41"), None);
    // nine hexadecimal digits overflow 32 bits
    assert_eq!(parse_codepoint("100000000"), None);
    assert_eq!(parse_codepoint("FFFFFFFF"), Some(0xFFFFFFFF));
}

#[test]
fn codepoint_accepts_leading_plus() {
    assert_eq!(parse_codepoint("+0041"), Some(0x41));
}

#[test]
fn line_with_range() {
    let line = "0660..0669    ; XID_Continue # Nd  [10] ARABIC-INDIC DIGIT ZERO";
    let (lo, hi, name) = parse_line(line).unwrap();
    assert_eq!(lo, 0x660);
    assert_eq!(hi, 0x669);
    assert_eq!(name, "XID_Continue");
}

#[test]
fn line_with_single_codepoint() {
    let line = "00B5          ; XID_Start # L&       MICRO SIGN";
    let (lo, hi, name) = parse_line(line).unwrap();
    assert_eq!(lo, 0xB5);
    assert_eq!(hi, 0xB5);
    assert_eq!(name, "XID_Start");
}

#[test]
fn line_without_comment() {
    let (lo, hi, name) = parse_line("0041..005A ; XID_Start").unwrap();
    assert_eq!(lo, 0x41);
    assert_eq!(hi, 0x5A);
    assert_eq!(name, "XID_Start");
}

#[test]
fn line_rejects() {
    assert_eq!(parse_line("no separator here"), None);
    assert_eq!(parse_line("zzzz ; XID_Start"), None);
    assert_eq!(parse_line("0041..zzzz ; XID_Start"), None);
    assert_eq!(parse_line(""), None);
}

#[test]
fn version_from_header() {
    let contents = "# DerivedCoreProperties-15.1.0.txt\n# Date: 2023-08-07\n0041..005A ; XID_Start\n";
    let v = parse_unicode_version("DerivedCoreProperties.txt", contents);
    assert_eq!(v, Some((15, 1, 0)));
}

#[test]
fn version_requires_matching_header() {
    let v = parse_unicode_version("DerivedCoreProperties.txt", "# SomeOtherFile-1.2.3.txt\n");
    assert_eq!(v, None);
    let v = parse_unicode_version("DerivedCoreProperties.txt", "no header at all");
    assert_eq!(v, None);
    // a file name without an extension has no version header to look for
    let v = parse_unicode_version("DerivedCoreProperties", "# DerivedCoreProperties-1.2.3.\n");
    assert_eq!(v, None);
}

#[test]
fn version_dots_match_any_separator() {
    // the pattern's bare dots are regex wildcards: a header with other
    // separators in the version still matches
    let v = parse_unicode_version("DerivedCoreProperties.txt", "# DerivedCoreProperties-15x1y0ztxt\n");
    assert_eq!(v, Some((15, 1, 0)));
}

#[test]
fn version_with_non_ascii_filename() {
    let v = parse_unicode_version("d\u{E4}ta.txt", "# d\u{E4}ta-1.2.3.txt\n");
    assert_eq!(v, Some((1, 2, 3)));
}

#[test]
fn data_line_inserts_range() {
    let mut props = Properties::new((15, 1, 0));
    assert!(apply_data_line(&mut props, "0041..005A    ; XID_Start # L& LETTERS"));
    assert!(props.is_xid_start('A'));
    assert!(props.is_xid_start('Z'));
    assert!(!props.is_xid_start('a'));
    assert!(!props.is_xid_continue('A'));
}

#[test]
fn data_line_skips_comments_blanks_and_foreign_names() {
    let mut props = Properties::new((15, 1, 0));
    assert!(apply_data_line(&mut props, "# a comment ; 0041..005A"));
    assert!(apply_data_line(&mut props, "   "));
    assert!(apply_data_line(&mut props, ""));
    assert!(apply_data_line(&mut props, "0041..005A ; Lowercase # not ours"));
    for code in 0..0x80u32 {
        let c = char::from_u32(code).unwrap();
        assert!(!props.is_xid_start(c));
        assert!(!props.is_xid_continue(c));
    }
}

#[test]
fn data_line_rejects_malformed() {
    let mut props = Properties::new((15, 1, 0));
    assert!(!apply_data_line(&mut props, "zzzz ; XID_Start"));
    assert!(!apply_data_line(&mut props, "no separator at all"));
    assert!(!props.is_xid_start('z'));
}

#[test]
fn data_line_clamps_to_codepoint_limit() {
    let mut props = Properties::new((15, 1, 0));
    assert!(apply_data_line(&mut props, "10FFF0..110010 ; XID_Continue"));
    assert!(props.is_xid_continue('\u{10FFF0}'));
    assert!(props.is_xid_continue('\u{10FFFF}'));
}

#[test]
fn output_starts_empty() {
    let out = Output::new();
    assert_eq!(out.as_str(), "");
}
