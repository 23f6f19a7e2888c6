use vstd::prelude::*;

use crate::chunks::{bit, build_catalogue, chunk_matches, index_id, zero_chunk, ChunkCatalogue};
use crate::overlap::{fusable, lay_out, placed_at, plan_fusions};
use crate::props::{is_scalar_value, member, spec_member, spec_member_bit, Properties};
use crate::{BuildError, Property};

verus! {

/// The answer the trie path of the persisted tables gives for `code`: the
/// block-index entry for `code`'s block (default 0 past the array's end)
/// selects a half-chunk offset into `leaf`, and one bit of one byte there
/// decides.
pub open spec fn spec_trie_path(trie: Seq<u8>, leaf: Seq<u8>, code: int) -> bool {
    let id = index_id(trie, code / 512);
    bit(leaf[id * 32 + (code / 8) % 64], (code % 8) as u8)
}

/// The decoder's answer from raw table material: ASCII codepoints read the
/// direct table, all others go through the trie path.
pub open spec fn spec_lookup_raw(ascii: Seq<bool>, trie: Seq<u8>, leaf: Seq<u8>, code: int) -> bool {
    if code < 128 {
        ascii[code]
    } else {
        spec_trie_path(trie, leaf, code)
    }
}

/// The persisted tables: per property a 128-entry ASCII table and a
/// block-index array, and one shared overlap-compressed byte array. Built
/// once, immutable afterwards.
pub struct Tables {
    ascii_start: Vec<bool>,
    ascii_continue: Vec<bool>,
    trie_start: Vec<u8>,
    trie_continue: Vec<u8>,
    leaf: Vec<u8>,
}

impl Tables {
    /// Every block-index entry keeps the decoder inside the compressed
    /// array, as does the default entry 0.
    #[verifier::type_invariant]
    spec fn inv(self) -> bool {
        &&& self.ascii_start@.len() == 128
        &&& self.ascii_continue@.len() == 128
        &&& self.leaf@.len() >= 64
        &&& forall|b: int|
            0 <= b < self.trie_start@.len() ==> (#[trigger] self.trie_start@[b]) as int * 32 + 64
                <= self.leaf@.len()
        &&& forall|b: int|
            0 <= b < self.trie_continue@.len() ==> (#[trigger] self.trie_continue@[b]) as int * 32
                + 64 <= self.leaf@.len()
    }

    /// The ASCII fast-path table of a property.
    pub closed spec fn spec_ascii(self, p: Property) -> Seq<bool> {
        match p {
            Property::Start => self.ascii_start@,
            Property::Continue => self.ascii_continue@,
        }
    }

    /// The block-index array of a property.
    pub closed spec fn spec_trie(self, p: Property) -> Seq<u8> {
        match p {
            Property::Start => self.trie_start@,
            Property::Continue => self.trie_continue@,
        }
    }

    /// The shared halfdense array.
    pub closed spec fn spec_leaf(self) -> Seq<u8> {
        self.leaf@
    }

    /// What `lookup` answers for `code`.
    pub open spec fn spec_lookup(self, p: Property, code: int) -> bool {
        spec_lookup_raw(self.spec_ascii(p), self.spec_trie(p), self.spec_leaf(), code)
    }

    /// O(1) decode: no error path exists, every scalar value resolves to an
    /// answer, out-of-catalogue blocks default to the all-zero chunk.
    pub fn lookup(&self, p: Property, ch: char) -> (r: bool)
        ensures
            r == self.spec_lookup(p, ch as int),
    {
        proof {
            use_type_invariant(&*self);
        }
        let code = ch as u32;
        if code < 128 {
            match p {
                Property::Start => self.ascii_start[code as usize],
                Property::Continue => self.ascii_continue[code as usize],
            }
        } else {
            let cp = code as usize;
            let trie = match p {
                Property::Start => &self.trie_start,
                Property::Continue => &self.trie_continue,
            };
            proof {
                lemma_code_decompose(code as int);
            }
            let block = cp / 8 / 64;
            let id: u8 = if block < trie.len() {
                trie[block]
            } else {
                0
            };
            proof {
                assert(block as int == (code as int) / 512);
                assert(index_id(trie@, block as int) == id as int);
                assert((id as int) * 32 + 64 <= self.leaf@.len());
            }
            let offset = (id as usize) * 32 + cp / 8 % 64;
            let byte = self.leaf[offset];
            (byte >> ((code % 8) as u8)) & 1 == 1
        }
    }

    /// Whether `ch` may start an identifier according to these tables.
    pub fn is_xid_start(&self, ch: char) -> (r: bool)
        ensures
            r == self.spec_lookup(Property::Start, ch as int),
    {
        self.lookup(Property::Start, ch)
    }

    /// Whether `ch` may continue an identifier according to these tables.
    pub fn is_xid_continue(&self, ch: char) -> (r: bool)
        ensures
            r == self.spec_lookup(Property::Continue, ch as int),
    {
        self.lookup(Property::Continue, ch)
    }

    /// Lookup by raw codepoint value, as a foreign caller would hand it
    /// in: surrogates and values beyond the codepoint range have neither
    /// property; scalar values answer as `lookup` does.
    pub fn lookup_u32(&self, p: Property, code: u32) -> (r: bool)
        ensures
            r == (is_scalar_value(code as int) && self.spec_lookup(p, code as int)),
    {
        match char_from_u32(code) {
            Some(c) => self.lookup(p, c),
            None => false,
        }
    }

    /// The ASCII table of a property, for emission.
    pub fn ascii_table(&self, p: Property) -> (r: &Vec<bool>)
        ensures
            r@ == self.spec_ascii(p),
    {
        match p {
            Property::Start => &self.ascii_start,
            Property::Continue => &self.ascii_continue,
        }
    }

    /// The block-index array of a property, for emission.
    pub fn trie_table(&self, p: Property) -> (r: &Vec<u8>)
        ensures
            r@ == self.spec_trie(p),
    {
        match p {
            Property::Start => &self.trie_start,
            Property::Continue => &self.trie_continue,
        }
    }

    /// The shared halfdense array, for emission. Its length never exceeds
    /// the dense concatenation of a full 256-chunk catalogue.
    pub fn leaf_table(&self) -> (r: &Vec<u8>)
        ensures
            r@ == self.spec_leaf(),
    {
        &self.leaf
    }
}

/// Relies on char::from_u32: it yields the character for exactly the
/// codepoints that are Unicode scalar values, and that character is the
/// codepoint it was made from.
#[verifier::external_body]
fn char_from_u32(code: u32) -> (r: Option<char>)
    ensures
        match r {
            Some(c) => is_scalar_value(code as int) && c as int == code as int,
            None => !is_scalar_value(code as int),
        },
{
    char::from_u32(code)
}

/// Rewrites every block-index entry (a catalogue id) through the offset map
/// the layout pass produced, so the array directly addresses the compressed
/// array.
#[verifier::loop_isolation(false)]
fn remap_index(idx: &mut Vec<u8>, offs: &Vec<u8>)
    requires
        forall|b: int|
            #![trigger old(idx)@[b]]
            0 <= b < old(idx)@.len() ==> (old(idx)@[b] as int) < offs@.len(),
    ensures
        final(idx)@.len() == old(idx)@.len(),
        forall|b: int|
            #![trigger old(idx)@[b]]
            0 <= b < old(idx)@.len() ==> final(idx)@[b] == offs@[old(idx)@[b] as int],
{
    let mut b: usize = 0;
    while b < idx.len()
        invariant
            b <= idx@.len(),
            idx@.len() == old(idx)@.len(),
            forall|bb: int| b <= bb < idx@.len() ==> idx@[bb] == old(idx)@[bb],
            forall|bb: int|
                #![trigger old(idx)@[bb]]
                0 <= bb < b ==> idx@[bb] == offs@[old(idx)@[bb] as int],
        decreases idx@.len() - b,
    {
        let entry = idx[b];
        idx.set(b, offs[entry as usize]);
        b = b + 1;
    }
}

/// Builds the 128-entry ASCII table of a property.
#[verifier::loop_isolation(false)]
fn build_ascii(props: &Properties, exclusions: &Vec<u32>, p: Property) -> (r: Vec<bool>)
    requires
        props.wf(),
    ensures
        r@.len() == 128,
        forall|code: int|
            0 <= code < 128 ==> r@[code] == spec_member(*props, exclusions@, p, code),
{
    let mut table: Vec<bool> = Vec::new();
    let mut code: u32 = 0;
    while code < 128
        invariant
            props.wf(),
            code <= 128,
            table@.len() == code,
            forall|cc: int|
                0 <= cc < code ==> table@[cc] == spec_member(*props, exclusions@, p, cc),
        decreases 128 - code,
    {
        table.push(member(props, exclusions, p, code));
        code = code + 1;
    }
    table
}

/// `code` splits into its block, its byte within the chunk, and its bit.
proof fn lemma_code_decompose(code: int)
    requires
        0 <= code,
    ensures
        code == 512 * (code / 512) + 8 * ((code / 8) % 64) + (code % 8),
        0 <= (code / 8) % 64 < 64,
        0 <= code % 8 < 8,
        code / 512 == (code / 8) / 64,
    decreases 0int,
{
    vstd::arithmetic::div_mod::lemma_fundamental_div_mod(code, 8);
    vstd::arithmetic::div_mod::lemma_fundamental_div_mod(code / 8, 64);
    vstd::arithmetic::div_mod::lemma_div_denominator(code, 8, 64);
    vstd::arithmetic::div_mod::lemma_mod_bound(code, 8);
    vstd::arithmetic::div_mod::lemma_mod_bound(code / 8, 64);
    vstd::arithmetic::div_mod::lemma_div_pos_is_pos(code, 8);
}

/// Compresses the full property tables into the persisted form. On success
/// the decoder reproduces the patched source exactly: every ASCII codepoint
/// through the direct tables, every other scalar value through the trie
/// path, and the trie path of every sub-0x80 or surrogate codepoint is
/// clear. Fails cleanly, never truncating, when the data needs more than
/// 256 distinct chunks (`TooManyChunks`, exactly when 257 pairwise distinct
/// chunk values are required), more than 256 half-chunk offsets
/// (`TooManyHalfChunks`), or when a fusion cycle survives the layout pass
/// (`ResidualChunk`).
pub fn build_tables(props: &Properties, exclusions: &Vec<u32>) -> (r: Result<Tables, BuildError>)
    requires
        props.wf(),
    ensures
        match r {
            Ok(t) => {
                &&& forall|p: Property, code: int|
                    0 <= code < 0x110000 ==> #[trigger] spec_trie_path(
                        t.spec_trie(p),
                        t.spec_leaf(),
                        code,
                    ) == spec_member_bit(*props, exclusions@, p, code)
                &&& forall|p: Property, code: int|
                    0 <= code < 128 ==> (#[trigger] t.spec_ascii(p)[code]) == spec_member(
                        *props,
                        exclusions@,
                        p,
                        code,
                    )
                &&& forall|p: Property, code: int|
                    is_scalar_value(code) ==> #[trigger] t.spec_lookup(p, code) == spec_member(
                        *props,
                        exclusions@,
                        p,
                        code,
                    )
                // a block past the (truncated) index array defaults to the
                // all-zero chunk at offset 0, whatever the source held
                &&& forall|p: Property, code: int|
                    0 <= code < 0x110000 && code / 512 >= t.spec_trie(p).len()
                        ==> !#[trigger] spec_trie_path(t.spec_trie(p), t.spec_leaf(), code)
                &&& 64 <= t.spec_leaf().len() <= 256 * 64
                &&& exists|s: Set<Seq<u8>>|
                    s.finite() && s.len() <= 256 && forall|p: Property, b: int|
                        0 <= b < 2176 ==> #[trigger] crate::chunks::family_covers(
                            s,
                            *props,
                            exclusions@,
                            p,
                            b,
                        )
            },
            Err(e) => {
                // the input needs more than 256 distinct chunks
                &&& e == BuildError::TooManyChunks ==> exists|s: Set<Seq<u8>>|
                    s.finite() && s.len() == 257 && forall|c: Seq<u8>|
                        #[trigger] s.contains(c) ==> (c == zero_chunk() || exists|
                            p: Property,
                            b: int,
                        | 0 <= b < 2176 && chunk_matches(c, *props, exclusions@, p, b))
                // offsets can only run out when at least 128 distinct
                // chunks are required
                &&& e == BuildError::TooManyHalfChunks ==> exists|s: Set<Seq<u8>>|
                    s.finite() && s.len() >= 128 && forall|c: Seq<u8>|
                        #[trigger] s.contains(c) ==> (c == zero_chunk() || exists|
                            p: Property,
                            b: int,
                        | 0 <= b < 2176 && chunk_matches(c, *props, exclusions@, p, b))
                // a residual fusion cycle needs two distinct required
                // chunks whose halves overlap
                &&& e == BuildError::ResidualChunk ==> exists|c1: Seq<u8>, c2: Seq<u8>|
                    ({
                        &&& c1 != c2
                        &&& c1.len() == 64 && c2.len() == 64
                        &&& c1.subrange(32, 64) == c2.subrange(0, 32)
                        &&& (c1 == zero_chunk() || exists|p: Property, b: int|
                            0 <= b < 2176 && chunk_matches(c1, *props, exclusions@, p, b))
                        &&& (c2 == zero_chunk() || exists|p: Property, b: int|
                            0 <= b < 2176 && chunk_matches(c2, *props, exclusions@, p, b))
                    })
            },
        },
{
    let ascii_start = build_ascii(props, exclusions, Property::Start);
    let ascii_continue = build_ascii(props, exclusions, Property::Continue);

    let cat = match build_catalogue(props, exclusions) {
        Ok(cat) => cat,
        Err(e) => {
            return Err(e);
        },
    };
    let ghost gcat = cat;

    let succ = plan_fusions(&cat.dense);
    let (leaf, offs) = match lay_out(&cat.dense, &succ) {
        Ok(pair) => pair,
        Err(e) => {
            proof {
                if e == BuildError::TooManyHalfChunks {
                    crate::chunks::lemma_catalogue_family(gcat.dense@, *props, exclusions@);
                }
                if e == BuildError::ResidualChunk {
                    let x = choose|x: int| 0 <= x < succ@.len() && (#[trigger] succ@[x]) is Some;
                    let jv = succ@[x]->Some_0;
                    assert(fusable(gcat.dense@, x, jv as int));
                    let c1 = gcat.dense@[x]@;
                    let c2 = gcat.dense@[jv as int]@;
                    assert(c1 != c2);
                    assert(c1.subrange(32, 64) =~= c2.subrange(0, 32));
                }
            }
            return Err(e);
        },
    };

    let mut trie_start = cat.index_start;
    let mut trie_continue = cat.index_continue;
    proof {
        assert forall|b: int| 0 <= b < trie_start@.len() implies ((#[trigger] trie_start@[b])
            as int) < offs@.len() by {
            assert(index_id(gcat.index_start@, b) == trie_start@[b] as int);
        }
        assert forall|b: int|
            0 <= b < trie_continue@.len() implies ((#[trigger] trie_continue@[b]) as int)
            < offs@.len() by {
            assert(index_id(gcat.index_continue@, b) == trie_continue@[b] as int);
        }
    }
    let ghost pre_trie_start = trie_start@;
    let ghost pre_trie_continue = trie_continue@;
    remap_index(&mut trie_start, &offs);
    remap_index(&mut trie_continue, &offs);

    proof {
        // every remapped entry carries a placement bound from the layout
        assert forall|b: int| 0 <= b < trie_start@.len() implies ((#[trigger] trie_start@[b])
            as int) * 32 + 64 <= leaf@.len() by {
            let id = pre_trie_start[b] as int;
            assert(trie_start@[b] == offs@[id]);
            assert(placed_at(leaf@, offs@[id] as int, gcat.dense@[id]@));
        }
        assert forall|b: int|
            0 <= b < trie_continue@.len() implies ((#[trigger] trie_continue@[b]) as int) * 32 + 64
            <= leaf@.len() by {
            let id = pre_trie_continue[b] as int;
            assert(trie_continue@[b] == offs@[id]);
            assert(placed_at(leaf@, offs@[id] as int, gcat.dense@[id]@));
        }
    }
    let tables = Tables { ascii_start, ascii_continue, trie_start, trie_continue, leaf };
    proof {
        lemma_tables_decode(
            tables,
            gcat,
            *props,
            exclusions@,
            offs@,
            gcat.index_start@,
            Property::Start,
        );
        lemma_tables_decode(
            tables,
            gcat,
            *props,
            exclusions@,
            offs@,
            gcat.index_continue@,
            Property::Continue,
        );
        assert forall|p: Property, code: int| is_scalar_value(code) implies #[trigger] tables
            .spec_lookup(p, code) == spec_member(*props, exclusions@, p, code) by {
            if code < 128 {
                assert(tables.spec_ascii(p)[code] == spec_member(*props, exclusions@, p, code));
            } else {
                assert(spec_trie_path(tables.spec_trie(p), tables.spec_leaf(), code)
                    == spec_member_bit(*props, exclusions@, p, code));
            }
        }
        assert forall|p: Property, code: int|
            0 <= code < 0x110000 && code / 512 >= tables.spec_trie(p).len() implies !#[trigger] spec_trie_path(
            tables.spec_trie(p),
            tables.spec_leaf(),
            code,
        ) by {
            lemma_code_decompose(code);
            let j = (code / 8) % 64;
            assert(index_id(tables.spec_trie(p), code / 512) == 0);
            assert(placed_at(tables.spec_leaf(), 0, gcat.dense@[0]@));
            assert(tables.spec_leaf()[0 * 32 + j] == gcat.dense@[0]@[j]);
            assert(gcat.dense@[0]@[j] == 0u8);
            crate::chunks::lemma_bit_zero((code % 8) as u8);
        }
    }
    Ok(tables)
}

/// ASCII agreement: the trie path stores no bits below 0x80, so on every
/// ASCII codepoint that lacks the (patched) property the trie path and the
/// ASCII fast path give the same answer, `false`. (On ASCII codepoints that
/// do have the property the two paths differ by design: ASCII membership is
/// recorded only in the direct table.) The hypotheses are exactly what
/// [`build_tables`] ensures of the tables it returns.
pub proof fn lemma_ascii_trie_agreement(
    t: Tables,
    props: Properties,
    exclusions: Seq<u32>,
    p: Property,
    code: int,
)
    requires
        0 <= code < 128,
        !spec_member(props, exclusions, p, code),
        forall|pp: Property, cc: int|
            0 <= cc < 0x110000 ==> #[trigger] spec_trie_path(t.spec_trie(pp), t.spec_leaf(), cc)
                == spec_member_bit(props, exclusions, pp, cc),
        forall|pp: Property, cc: int|
            0 <= cc < 128 ==> (#[trigger] t.spec_ascii(pp)[cc]) == spec_member(
                props,
                exclusions,
                pp,
                cc,
            ),
    ensures
        spec_trie_path(t.spec_trie(p), t.spec_leaf(), code) == t.spec_ascii(p)[code],
        !t.spec_lookup(p, code),
{
    assert(spec_trie_path(t.spec_trie(p), t.spec_leaf(), code) == spec_member_bit(
        props,
        exclusions,
        p,
        code,
    ));
    assert(!spec_member_bit(props, exclusions, p, code));
}

/// After remapping, the trie path of every codepoint reads exactly the bit
/// the chunk catalogue stored for it.
proof fn lemma_tables_decode(
    tables: Tables,
    cat: ChunkCatalogue,
    props: Properties,
    exclusions: Seq<u32>,
    offs: Seq<u8>,
    old_idx: Seq<u8>,
    p: Property,
)
    requires
        cat.wf(),
        cat.covers(props, exclusions),
        offs.len() == cat.dense@.len(),
        offs[0] == 0,
        forall|c: int|
            0 <= c < cat.dense@.len() ==> placed_at(
                tables.spec_leaf(),
                (#[trigger] offs[c]) as int,
                cat.dense@[c]@,
            ),
        old_idx == (if p == Property::Start {
            cat.index_start@
        } else {
            cat.index_continue@
        }),
        tables.spec_trie(p).len() == old_idx.len(),
        forall|b: int|
            0 <= b < old_idx.len() ==> tables.spec_trie(p)[b] == offs[(#[trigger] old_idx[b]) as int],
    ensures
        forall|code: int|
            0 <= code < 0x110000 ==> #[trigger] spec_trie_path(
                tables.spec_trie(p),
                tables.spec_leaf(),
                code,
            ) == spec_member_bit(props, exclusions, p, code),
{
    let trie = tables.spec_trie(p);
    let leaf = tables.spec_leaf();
    assert forall|code: int| 0 <= code < 0x110000 implies #[trigger] spec_trie_path(
        trie,
        leaf,
        code,
    ) == spec_member_bit(props, exclusions, p, code) by {
        lemma_code_decompose(code);
        let b = code / 512;
        assert(0 <= b < 2176);
        let id = index_id(old_idx, b);
        assert(0 <= id < cat.dense@.len() && chunk_matches(cat.dense@[id]@, props, exclusions, p, b));
        let entry = index_id(trie, b);
        assert(entry == offs[id] as int) by {
            if b < old_idx.len() {
                assert(trie[b] == offs[old_idx[b] as int]);
            } else {
                assert(id == 0);
            }
        }
        assert(placed_at(leaf, offs[id] as int, cat.dense@[id]@));
        let j = (code / 8) % 64;
        let k = (code % 8) as u8;
        assert(leaf[entry * 32 + j] == cat.dense@[id]@[j]);
        assert(bit(cat.dense@[id]@[j], k) == spec_member_bit(
            props,
            exclusions,
            p,
            b * 512 + 8 * j + k,
        ));
        assert(b * 512 + 8 * j + k == code);
    }
}

} // verus!
