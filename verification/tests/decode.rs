use unicode_ident::props::Properties;
use unicode_ident::props::legacy_continue_exclusions;
use unicode_ident::tables::build_tables;
use unicode_ident::Property;

fn ch(code: u32) -> char {
    char::from_u32(code).unwrap()
}

#[test]
fn scenario_ascii_letter_start() {
    let mut props = Properties::new((15, 1, 0));
    props.insert_range(Property::Start, 0x41, 0x5A);
    props.insert_range(Property::Start, 0x61, 0x7A);
    let tables = build_tables(&props, &Vec::new()).unwrap();
    assert!(tables.is_xid_start('A'));
    assert!(!tables.is_xid_start('1'));
}

#[test]
fn scenario_tab_neither() {
    let mut props = Properties::new((15, 1, 0));
    props.insert_range(Property::Start, 0x41, 0x5A);
    props.insert_range(Property::Continue, 0x41, 0x5A);
    let tables = build_tables(&props, &Vec::new()).unwrap();
    assert!(!tables.is_xid_start('\u{9}'));
    assert!(!tables.is_xid_continue('\u{9}'));
}

#[test]
fn scenario_micro_sign_via_trie() {
    let mut props = Properties::new((15, 1, 0));
    props.insert_range(Property::Start, 0xB5, 0xB5);
    let tables = build_tables(&props, &Vec::new()).unwrap();
    assert!(tables.is_xid_start(ch(0xB5)));
    assert!(!tables.is_xid_start(ch(0xB4)));
    assert!(!tables.is_xid_start(ch(0xB6)));
}

#[test]
fn legacy_katakana_middle_dot_patch() {
    // U+30FB KATAKANA MIDDLE DOT and U+FF65 HALFWIDTH KATAKANA MIDDLE DOT
    // carry the raw Continue property but the patch removes them.
    let mut props = Properties::new((15, 1, 0));
    props.insert_range(Property::Continue, 0x30A0, 0x30FF);
    props.insert_range(Property::Continue, 0xFF60, 0xFF70);
    let exclusions = legacy_continue_exclusions();
    let tables = build_tables(&props, &exclusions).unwrap();
    assert!(!tables.is_xid_continue(ch(0x30FB)));
    assert!(!tables.is_xid_continue(ch(0xFF65)));
    // neighbours keep the property
    assert!(tables.is_xid_continue(ch(0x30FA)));
    assert!(tables.is_xid_continue(ch(0xFF66)));
}

#[test]
fn scenario_all_zero_block_defaults_to_false() {
    let mut props = Properties::new((15, 1, 0));
    // data only far below the probed block, so its index entry is stripped
    props.insert_range(Property::Start, 0x100, 0x1FF);
    let tables = build_tables(&props, &Vec::new()).unwrap();
    for code in [0x4FE00u32, 0x4FE01, 0x4FFFF, 0x10FFFF] {
        assert!(!tables.is_xid_start(ch(code)));
        assert!(!tables.is_xid_continue(ch(code)));
    }
}

#[test]
fn round_trip_fidelity_sampled() {
    let mut props = Properties::new((15, 1, 0));
    props.insert_range(Property::Start, 0x41, 0x5A);
    props.insert_range(Property::Start, 0xC0, 0x2FF);
    props.insert_range(Property::Start, 0x3040, 0x30FF);
    props.insert_range(Property::Continue, 0x30, 0x39);
    props.insert_range(Property::Continue, 0x41, 0x5A);
    props.insert_range(Property::Continue, 0x300, 0x36F);
    props.insert_range(Property::Continue, 0x3040, 0x30FF);
    props.insert_range(Property::Continue, 0x1D165, 0x1D169);
    let exclusions = legacy_continue_exclusions();
    let tables = build_tables(&props, &exclusions).unwrap();
    let mut code = 0u32;
    while code <= 0x10FFFF {
        if let Some(c) = char::from_u32(code) {
            let want_start = props.is_xid_start(c);
            let want_continue = props.is_xid_continue(c)
                && !(code == 0x30FB || code == 0xFF65);
            assert_eq!(tables.is_xid_start(c), want_start, "{code:#x}");
            assert_eq!(tables.is_xid_continue(c), want_continue, "{code:#x}");
        }
        code += if (0x2F00..0x31000).contains(&code) || code < 0x400 { 1 } else { 61 };
    }
}

#[test]
fn fusion_overlap_compresses() {
    // block 2's chunk is [0 | X] and block 3's is [X | 0]: the trailing
    // half of the first equals the leading half of the second, so the
    // layout fuses them and the zero chunk chains in front: 64 + 32 + 32
    // bytes instead of the dense 192.
    let mut props = Properties::new((15, 1, 0));
    let a = 2 * 512 + 256 + 77;
    let b = 3 * 512 + 77;
    props.insert_range(Property::Start, a, a);
    props.insert_range(Property::Start, b, b);
    let tables = build_tables(&props, &Vec::new()).unwrap();
    assert_eq!(tables.leaf_table().len(), 128);
    assert!(tables.is_xid_start(ch(a)));
    assert!(tables.is_xid_start(ch(b)));
    assert!(!tables.is_xid_start(ch(a + 1)));
    assert!(!tables.is_xid_start(ch(b + 1)));
}

#[test]
fn chunks_shared_across_properties() {
    // the same bitset in a Start block and a Continue block lands in one
    // catalogue entry: the halfdense array holds the zero chunk and one
    // shared chunk only
    let mut props = Properties::new((15, 1, 0));
    props.insert_range(Property::Start, 2 * 512 + 10, 2 * 512 + 10);
    props.insert_range(Property::Continue, 5 * 512 + 10, 5 * 512 + 10);
    let tables = build_tables(&props, &Vec::new()).unwrap();
    assert_eq!(tables.leaf_table().len(), 128);
    assert!(tables.is_xid_start(ch(2 * 512 + 10)));
    assert!(tables.is_xid_continue(ch(5 * 512 + 10)));
    assert!(!tables.is_xid_continue(ch(2 * 512 + 10)));
    assert!(!tables.is_xid_start(ch(5 * 512 + 10)));
}

#[test]
fn all_one_chunk_never_chains_to_itself() {
    // sixteen saturated blocks deduplicate to a single all-one chunk whose
    // leading half equals its own trailing half; self-fusion is forbidden,
    // so it is laid out once, in full
    let mut props = Properties::new((15, 1, 0));
    props.insert_range(Property::Start, 0x1000, 0x2FFF);
    let tables = build_tables(&props, &Vec::new()).unwrap();
    assert_eq!(tables.leaf_table().len(), 128);
    assert!(tables.is_xid_start(ch(0x1000)));
    assert!(tables.is_xid_start(ch(0x2FFF)));
    assert!(!tables.is_xid_start(ch(0xFFF)));
    assert!(!tables.is_xid_start(ch(0x3000)));
}

#[test]
fn chunk_cap_fails_cleanly() {
    // one distinct non-zero chunk per block; four of the codepoints fall
    // into the surrogate range and render as the zero chunk, so 261
    // blocks still leave 257 distinct chunks, exceeding the 256-entry
    // catalogue: the build reports it instead of truncating.
    let mut props = Properties::new((15, 1, 0));
    let mut blk = 2u32;
    while blk < 2 + 261 {
        let cp = blk * 512 + blk; // distinct in-block position per block
        props.insert_range(Property::Start, cp, cp);
        blk += 1;
    }
    match build_tables(&props, &Vec::new()) {
        Err(e) => assert_eq!(e, unicode_ident::BuildError::TooManyChunks),
        Ok(_) => panic!("build accepted an oversized catalogue"),
    }
}

#[test]
fn half_chunk_cap_fails_cleanly() {
    // 150 distinct chunks none of which can fuse need 301 half-chunk
    // slots, more than a one-byte offset can address
    let mut props = Properties::new((15, 1, 0));
    let mut blk = 2u32;
    while blk < 152 {
        let cp = blk * 512 + blk;
        props.insert_range(Property::Start, cp, cp);
        blk += 1;
    }
    match build_tables(&props, &Vec::new()) {
        Err(e) => assert_eq!(e, unicode_ident::BuildError::TooManyHalfChunks),
        Ok(_) => panic!("build accepted out-of-range offsets"),
    }
}

#[test]
fn residual_cycle_detected() {
    // chunks [x|y] and [y|x] fuse into each other both ways; the matching
    // pairs them into a two-cycle that no chain head reaches, and the
    // layout pass reports the defect instead of dropping the chunks
    let mut props = Properties::new((15, 1, 0));
    props.insert_range(Property::Start, 2 * 512 + 10, 2 * 512 + 10);
    props.insert_range(Property::Start, 2 * 512 + 256 + 20, 2 * 512 + 256 + 20);
    props.insert_range(Property::Start, 3 * 512 + 20, 3 * 512 + 20);
    props.insert_range(Property::Start, 3 * 512 + 256 + 10, 3 * 512 + 256 + 10);
    match build_tables(&props, &Vec::new()) {
        Err(e) => assert_eq!(e, unicode_ident::BuildError::ResidualChunk),
        Ok(_) => panic!("build laid out a fusion cycle"),
    }
}

#[test]
fn lookup_by_raw_codepoint() {
    let mut props = Properties::new((15, 1, 0));
    props.insert_range(Property::Start, 0x41, 0x5A);
    props.insert_range(Property::Start, 0xB5, 0xB5);
    let tables = build_tables(&props, &Vec::new()).unwrap();
    assert!(tables.lookup_u32(Property::Start, 0x41));
    assert!(tables.lookup_u32(Property::Start, 0xB5));
    // surrogates and out-of-range codepoints have neither property
    assert!(!tables.lookup_u32(Property::Start, 0xD800));
    assert!(!tables.lookup_u32(Property::Start, 0x110000));
    assert!(!tables.lookup_u32(Property::Start, u32::MAX));
}

#[test]
fn compactness_bounds() {
    let mut props = Properties::new((15, 1, 0));
    let mut blk = 2u32;
    // 100 distinct chunks stay under the caps; none of them fuses, so the
    // halfdense array is exactly the dense concatenation and within the
    // no-fusion upper bound
    while blk < 102 {
        let cp = blk * 512 + blk;
        props.insert_range(Property::Start, cp, cp);
        blk += 1;
    }
    let tables = build_tables(&props, &Vec::new()).unwrap();
    let len = tables.leaf_table().len();
    assert!(len >= 64);
    assert!(len <= 256 * 64);
    assert_eq!(len, (100 + 1) * 64);
    assert_eq!(len % 32, 0);
}

#[test]
fn ascii_tables_match_source() {
    let mut props = Properties::new((15, 1, 0));
    props.insert_range(Property::Start, 0x41, 0x5A);
    props.insert_range(Property::Continue, 0x30, 0x39);
    let tables = build_tables(&props, &Vec::new()).unwrap();
    let start = tables.ascii_table(Property::Start);
    let cont = tables.ascii_table(Property::Continue);
    assert_eq!(start.len(), 128);
    assert_eq!(cont.len(), 128);
    for code in 0..128u32 {
        let c = ch(code);
        assert_eq!(start[code as usize], props.is_xid_start(c));
        assert_eq!(cont[code as usize], props.is_xid_continue(c));
    }
}

#[test]
fn properties_membership_and_version() {
    let mut props = Properties::new((16, 0, 0));
    assert_eq!(props.unicode_version(), (16, 0, 0));
    assert!(!props.is_xid_start('A'));
    props.insert_range(Property::Start, 0x41, 0x5A);
    assert!(props.is_xid_start('A'));
    assert!(props.is_xid_start('Z'));
    assert!(!props.is_xid_start('a'));
    assert!(!props.is_xid_continue('A'));
}

#[test]
fn totality_over_scalar_values() {
    let mut props = Properties::new((15, 1, 0));
    props.insert_range(Property::Start, 0x41, 0x5A);
    let tables = build_tables(&props, &Vec::new()).unwrap();
    // every scalar value, surrogate-adjacent and extreme ones included,
    // gets an answer without fault
    let mut hits = 0;
    for code in [0u32, 0x7F, 0x80, 0xD7FF, 0xE000, 0xFFFF, 0x10000, 0x10FFFF] {
        let c = ch(code);
        if tables.is_xid_start(c) {
            hits += 1;
        }
        if tables.is_xid_continue(c) {
            hits += 1;
        }
    }
    assert_eq!(hits, 0);
}
