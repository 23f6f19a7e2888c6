use vstd::prelude::*;

use crate::props::{member, scalar_value, spec_member_bit, Properties};
use crate::{BuildError, Property};

verus! {

/// Bytes per chunk; a block therefore spans `CHUNK_SIZE * 8` codepoints.
pub const CHUNK_SIZE: usize = 64;

/// Number of 512-codepoint blocks that cover the whole codepoint space.
pub const BLOCK_COUNT: usize = 2176;

/// Bit `k` of byte `b`.
pub open spec fn bit(b: u8, k: u8) -> bool {
    (b >> k) & 1 == 1
}

proof fn lemma_bit_or(b: u8, k: u8, m: u8)
    requires
        k < 8,
        m < 8,
    ensures
        bit(b | (1u8 << k), m) == (m == k || bit(b, m)),
{
    assert((((b | (1u8 << k)) >> m) & 1 == 1) == ((m == k) || ((b >> m) & 1 == 1)))
        by (bit_vector)
        requires
            k < 8 && m < 8,
    ;
}

pub(crate) proof fn lemma_bit_zero(k: u8)
    ensures
        !bit(0u8, k),
{
    assert(!((0u8 >> k) & 1 == 1)) by (bit_vector);
}

/// The chunk every bit of which is clear: catalogue slot 0.
pub open spec fn zero_chunk() -> Seq<u8> {
    Seq::new(64, |j: int| 0u8)
}

/// `chunk` renders the membership bits of block `block` for property `p`:
/// bit `k` of byte `j` is set iff codepoint `block*512 + 8*j + k` is a
/// non-ASCII scalar value with the (patched) property.
pub open spec fn chunk_matches(
    chunk: Seq<u8>,
    props: Properties,
    exclusions: Seq<u32>,
    p: Property,
    block: int,
) -> bool {
    &&& chunk.len() == 64
    &&& forall|j: int, k: u8|
        0 <= j < 64 && k < 8 ==> #[trigger] bit(chunk[j], k) == spec_member_bit(
            props,
            exclusions,
            p,
            block * 512 + 8 * j + k,
        )
}

/// Some member of `s` renders block `b` of property `p`.
pub open spec fn family_covers(
    s: Set<Seq<u8>>,
    props: Properties,
    exclusions: Seq<u32>,
    p: Property,
    b: int,
) -> bool {
    exists|c: Seq<u8>| #[trigger] s.contains(c) && chunk_matches(c, props, exclusions, p, b)
}

/// All catalogue entries are 64 bytes long and pairwise distinct.
pub open spec fn catalogue_wf(dense: Seq<Vec<u8>>) -> bool {
    &&& forall|i: int| 0 <= i < dense.len() ==> (#[trigger] dense[i])@.len() == 64
    &&& forall|i: int, j: int|
        0 <= i < j < dense.len() ==> (#[trigger] dense[i])@ != (#[trigger] dense[j])@
}

/// Renders block `block` of property `p` as a 64-byte bitset.
fn build_block_chunk(
    props: &Properties,
    exclusions: &Vec<u32>,
    p: Property,
    block: usize,
) -> (chunk: Vec<u8>)
    requires
        props.wf(),
        block < 2176,
    ensures
        chunk_matches(chunk@, *props, exclusions@, p, block as int),
{
    let mut chunk: Vec<u8> = Vec::new();
    let mut j: usize = 0;
    while j < 64
        invariant
            props.wf(),
            block < 2176,
            j <= 64,
            chunk@.len() == j,
            forall|jj: int, k: u8|
                0 <= jj < j && k < 8 ==> #[trigger] bit(chunk@[jj], k) == spec_member_bit(
                    *props,
                    exclusions@,
                    p,
                    (block as int) * 512 + 8 * jj + k,
                ),
        decreases 64 - j,
    {
        let mut byte: u8 = 0;
        proof {
            assert forall|kk: u8| kk < 8 implies !bit(byte, kk) by {
                lemma_bit_zero(kk);
            }
        }
        let mut k: usize = 0;
        while k < 8
            invariant
                props.wf(),
                block < 2176,
                j < 64,
                k <= 8,
                forall|kk: u8|
                    kk < k ==> #[trigger] bit(byte, kk) == spec_member_bit(
                        *props,
                        exclusions@,
                        p,
                        (block as int) * 512 + 8 * (j as int) + kk,
                    ),
                forall|kk: u8| k <= kk < 8 ==> !(#[trigger] bit(byte, kk)),
            decreases 8 - k,
        {
            let code: u32 = (block as u32) * 512 + (j as u32) * 8 + (k as u32);
            let is_member = scalar_value(code) && code >= 0x80 && member(
                props,
                exclusions,
                p,
                code,
            );
            if is_member {
                let ghost old_byte = byte;
                byte = byte | (1u8 << (k as u8));
                proof {
                    assert forall|kk: u8| kk < 8 implies #[trigger] bit(byte, kk) == (kk == k
                        || bit(old_byte, kk)) by {
                        lemma_bit_or(old_byte, k as u8, kk);
                    }
                }
            }
            k = k + 1;
        }
        chunk.push(byte);
        j = j + 1;
    }
    chunk
}

/// Looks `chunk` up in the catalogue by value.
fn find_chunk(dense: &Vec<Vec<u8>>, chunk: &Vec<u8>) -> (r: Option<usize>)
    ensures
        match r {
            Some(i) => i < dense@.len() && dense@[i as int]@ == chunk@,
            None => forall|i: int| 0 <= i < dense@.len() ==> (#[trigger] dense@[i])@ != chunk@,
        },
{
    let mut i: usize = 0;
    while i < dense.len()
        invariant
            i <= dense@.len(),
            forall|ii: int| 0 <= ii < i ==> (#[trigger] dense@[ii])@ != chunk@,
        decreases dense@.len() - i,
    {
        if vec_u8_eq(&dense[i], chunk) {
            return Some(i);
        }
        i = i + 1;
    }
    None
}

/// Byte-wise comparison of two chunks.
fn vec_u8_eq(a: &Vec<u8>, b: &Vec<u8>) -> (r: bool)
    ensures
        r == (a@ == b@),
{
    if a.len() != b.len() {
        return false;
    }
    let mut i: usize = 0;
    while i < a.len()
        invariant
            a@.len() == b@.len(),
            i <= a@.len(),
            forall|k: int| 0 <= k < i ==> a@[k] == b@[k],
        decreases a@.len() - i,
    {
        if a[i] != b[i] {
            return false;
        }
        i = i + 1;
    }
    proof {
        assert(a@ =~= b@);
    }
    true
}

/// Interns `chunk` in the catalogue, reusing the id of an identical entry,
/// and fails once more than 256 distinct chunks are required.
fn new_chunk(dense: &mut Vec<Vec<u8>>, chunk: Vec<u8>) -> (r: Result<u8, BuildError>)
    requires
        old(dense)@.len() <= 256,
    ensures
        final(dense)@.len() <= 256,
        final(dense)@.len() >= old(dense)@.len(),
        forall|i: int| 0 <= i < old(dense)@.len() ==> (#[trigger] final(dense)@[i])@ == old(
            dense,
        )@[i]@,
        match r {
            Ok(id) => {
                &&& (id as int) < final(dense)@.len()
                &&& final(dense)@[id as int]@ == chunk@
                &&& (final(dense)@.len() == old(dense)@.len() || (final(dense)@.len() == old(
                    dense,
                )@.len() + 1 && (id as int) == old(dense)@.len() && forall|i: int|
                    0 <= i < old(dense)@.len() ==> (#[trigger] old(dense)@[i])@ != chunk@))
            },
            Err(e) => {
                &&& e == BuildError::TooManyChunks
                &&& final(dense)@ == old(dense)@
                &&& old(dense)@.len() == 256
                &&& forall|i: int| 0 <= i < old(dense)@.len() ==> (#[trigger] old(dense)@[i])@
                    != chunk@
            },
        },
{
    match find_chunk(dense, &chunk) {
        Some(i) => {
            let id = i as u8;
            assert(i < 256);
            Ok(id)
        },
        None => {
            if dense.len() == 256 {
                return Err(BuildError::TooManyChunks);
            }
            let id = dense.len() as u8;
            dense.push(chunk);
            Ok(id)
        },
    }
}

/// Drops the trailing zero entries of a block-index array; lookups past the
/// shortened array default to catalogue slot 0.
fn strip_trailing_zeros(idx: &mut Vec<u8>)
    ensures
        final(idx)@.len() <= old(idx)@.len(),
        forall|i: int| 0 <= i < final(idx)@.len() ==> final(idx)@[i] == old(idx)@[i],
        forall|i: int| final(idx)@.len() <= i < old(idx)@.len() ==> old(idx)@[i] == 0,
{
    while idx.len() > 0 && idx[idx.len() - 1] == 0
        invariant
            idx@.len() <= old(idx)@.len(),
            forall|i: int| 0 <= i < idx@.len() ==> idx@[i] == old(idx)@[i],
            forall|i: int| idx@.len() <= i < old(idx)@.len() ==> old(idx)@[i] == 0,
        decreases idx@.len(),
    {
        idx.pop();
    }
}

/// The id a block-index array assigns to block `b`, defaulting to slot 0
/// past the array's (possibly stripped) end.
pub open spec fn index_id(idx: Seq<u8>, b: int) -> int {
    if 0 <= b < idx.len() {
        idx[b] as int
    } else {
        0
    }
}

/// Output of the chunk-building pass: the deduplicated catalogue and one
/// block-index array per property, already stripped of their zero tails.
pub struct ChunkCatalogue {
    pub dense: Vec<Vec<u8>>,
    pub index_start: Vec<u8>,
    pub index_continue: Vec<u8>,
}

impl ChunkCatalogue {
    /// Every block of either property is mapped to a catalogue entry that
    /// renders exactly its membership bits.
    pub open spec fn covers(self, props: Properties, exclusions: Seq<u32>) -> bool {
        &&& forall|b: int|
            0 <= b < 2176 ==> {
                let id = #[trigger] index_id(self.index_start@, b);
                &&& 0 <= id < self.dense@.len()
                &&& chunk_matches(self.dense@[id]@, props, exclusions, Property::Start, b)
            }
        &&& forall|b: int|
            0 <= b < 2176 ==> {
                let id = #[trigger] index_id(self.index_continue@, b);
                &&& 0 <= id < self.dense@.len()
                &&& chunk_matches(self.dense@[id]@, props, exclusions, Property::Continue, b)
            }
    }

    pub open spec fn wf(self) -> bool {
        &&& 1 <= self.dense@.len() <= 256
        &&& self.dense@[0]@ == zero_chunk()
        &&& catalogue_wf(self.dense@)
        &&& self.index_start@.len() <= 2176
        &&& self.index_continue@.len() <= 2176
    }
}

/// Partitions the non-ASCII codepoint space into 512-codepoint blocks,
/// renders each block's membership as a 64-byte bitset and deduplicates the
/// bitsets into a catalogue of at most 256 chunks, slot 0 being reserved for
/// the all-zero chunk.
pub fn build_catalogue(props: &Properties, exclusions: &Vec<u32>) -> (r: Result<
    ChunkCatalogue,
    BuildError,
>)
    requires
        props.wf(),
    ensures
        match r {
            Ok(cat) => {
                &&& cat.wf()
                &&& cat.covers(*props, exclusions@)
                // every catalogue entry is the reserved zero chunk or a
                // rendering of some block of the input
                &&& forall|i: int|
                    0 <= i < cat.dense@.len() ==> ((#[trigger] cat.dense@[i])@ == zero_chunk()
                        || exists|p: Property, b: int|
                        0 <= b < 2176 && chunk_matches(cat.dense@[i]@, *props, exclusions@, p, b))
                // at most 256 distinct chunk values suffice for the input
                &&& exists|s: Set<Seq<u8>>|
                    s.finite() && s.len() <= 256 && forall|p: Property, b: int|
                        0 <= b < 2176 ==> #[trigger] family_covers(s, *props, exclusions@, p, b)
            },
            Err(e) => {
                &&& e == BuildError::TooManyChunks
                &&& exists|s: Set<Seq<u8>>|
                    s.finite() && s.len() == 257 && forall|c: Seq<u8>|
                        #[trigger] s.contains(c) ==> (c == zero_chunk() || exists|p: Property, b: int|
                            0 <= b < 2176 && chunk_matches(c, *props, exclusions@, p, b))
            },
        },
{
    let mut dense: Vec<Vec<u8>> = Vec::new();
    let zero: Vec<u8> = vec![0u8; 64];
    proof {
        assert(zero@ =~= zero_chunk());
    }
    dense.push(zero);

    let mut index_start: Vec<u8> = Vec::new();
    let mut index_continue: Vec<u8> = Vec::new();
    let mut b: usize = 0;
    while b < 2176
        invariant
            props.wf(),
            1 <= dense@.len() <= 256,
            dense@[0]@ == zero_chunk(),
            catalogue_wf(dense@),
            forall|i: int|
                0 <= i < dense@.len() ==> ((#[trigger] dense@[i])@ == zero_chunk() || exists|
                    p: Property,
                    bb: int,
                |
                    0 <= bb < 2176 && chunk_matches(dense@[i]@, *props, exclusions@, p, bb)),
            index_start@.len() == b,
            index_continue@.len() == b,
            b <= 2176,
            forall|bb: int|
                0 <= bb < b ==> {
                    let id = #[trigger] index_id(index_start@, bb);
                    &&& 0 <= id < dense@.len()
                    &&& chunk_matches(dense@[id]@, *props, exclusions@, Property::Start, bb)
                },
            forall|bb: int|
                0 <= bb < b ==> {
                    let id = #[trigger] index_id(index_continue@, bb);
                    &&& 0 <= id < dense@.len()
                    &&& chunk_matches(dense@[id]@, *props, exclusions@, Property::Continue, bb)
                },
        decreases 2176 - b,
    {
        let ghost pre_idx_s = index_start@;
        let ghost pre_idx_c = index_continue@;
        let start_chunk = build_block_chunk(props, exclusions, Property::Start, b);
        let ghost pre = dense@;
        let id_s = match new_chunk(&mut dense, start_chunk) {
            Ok(id) => id,
            Err(e) => {
                proof {
                    lemma_cap_family(pre, start_chunk@, *props, exclusions@);
                }
                return Err(e);
            },
        };
        index_start.push(id_s);

        let cont_chunk = build_block_chunk(props, exclusions, Property::Continue, b);
        let ghost pre2 = dense@;
        let id_c = match new_chunk(&mut dense, cont_chunk) {
            Ok(id) => id,
            Err(e) => {
                proof {
                    assert forall|i: int| 0 <= i < pre2.len() implies ((#[trigger] pre2[i])@
                        == zero_chunk() || exists|p: Property, bb: int|
                        0 <= bb < 2176 && chunk_matches(pre2[i]@, *props, exclusions@, p, bb)) by {
                        if i < pre.len() {
                            assert(pre2[i]@ == pre[i]@);
                        } else {
                            assert(pre2[i]@ == start_chunk@);
                            assert(chunk_matches(
                                pre2[i]@,
                                *props,
                                exclusions@,
                                Property::Start,
                                b as int,
                            ));
                        }
                    }
                    assert(catalogue_wf(pre2));
                    lemma_cap_family(pre2, cont_chunk@, *props, exclusions@);
                }
                return Err(e);
            },
        };
        index_continue.push(id_c);
        proof {
            // entries interned earlier keep their values across both calls
            assert forall|i: int| 0 <= i < pre.len() implies (#[trigger] dense@[i])@ == pre[i]@ by {
                assert(pre2[i]@ == pre[i]@);
            }
            assert(dense@[id_s as int]@ == start_chunk@) by {
                if (id_s as int) < pre2.len() {
                    assert(pre2[id_s as int]@ == start_chunk@);
                }
            }
            assert forall|bb: int| 0 <= bb < b + 1 implies {
                let id = #[trigger] index_id(index_start@, bb);
                &&& 0 <= id < dense@.len()
                &&& chunk_matches(dense@[id]@, *props, exclusions@, Property::Start, bb)
            } by {
                if bb < b {
                    assert(index_id(index_start@, bb) == index_id(pre_idx_s, bb));
                    assert(dense@[index_id(pre_idx_s, bb)]@ == pre[index_id(pre_idx_s, bb)]@);
                } else {
                    assert(index_id(index_start@, bb) == id_s as int);
                }
            }
            assert forall|bb: int| 0 <= bb < b + 1 implies {
                let id = #[trigger] index_id(index_continue@, bb);
                &&& 0 <= id < dense@.len()
                &&& chunk_matches(dense@[id]@, *props, exclusions@, Property::Continue, bb)
            } by {
                if bb < b {
                    assert(index_id(index_continue@, bb) == index_id(pre_idx_c, bb));
                    assert(dense@[index_id(pre_idx_c, bb)]@ == pre[index_id(pre_idx_c, bb)]@);
                }
            }
            assert forall|i: int| 0 <= i < dense@.len() implies ((#[trigger] dense@[i])@
                == zero_chunk() || exists|p: Property, bb: int|
                0 <= bb < 2176 && chunk_matches(dense@[i]@, *props, exclusions@, p, bb)) by {
                if i < pre.len() {
                    assert(dense@[i]@ == pre[i]@);
                } else if i < pre2.len() {
                    assert(dense@[i]@ == pre2[i]@ && pre2[i]@ == start_chunk@);
                    assert(chunk_matches(
                        dense@[i]@,
                        *props,
                        exclusions@,
                        Property::Start,
                        b as int,
                    ));
                } else {
                    assert(dense@[i]@ == cont_chunk@);
                    assert(chunk_matches(
                        dense@[i]@,
                        *props,
                        exclusions@,
                        Property::Continue,
                        b as int,
                    ));
                }
            }
        }
        b = b + 1;
    }

    let ghost full_idx_s = index_start@;
    let ghost full_idx_c = index_continue@;
    strip_trailing_zeros(&mut index_start);
    strip_trailing_zeros(&mut index_continue);
    proof {
        assert forall|bb: int| 0 <= bb < 2176 implies {
            let id = #[trigger] index_id(index_start@, bb);
            &&& 0 <= id < dense@.len()
            &&& chunk_matches(dense@[id]@, *props, exclusions@, Property::Start, bb)
        } by {
            if bb < index_start@.len() {
                assert(index_id(index_start@, bb) == index_id(full_idx_s, bb));
            } else {
                assert(full_idx_s[bb] == 0);
                assert(index_id(full_idx_s, bb) == 0);
            }
        }
        assert forall|bb: int| 0 <= bb < 2176 implies {
            let id = #[trigger] index_id(index_continue@, bb);
            &&& 0 <= id < dense@.len()
            &&& chunk_matches(dense@[id]@, *props, exclusions@, Property::Continue, bb)
        } by {
            if bb < index_continue@.len() {
                assert(index_id(index_continue@, bb) == index_id(full_idx_c, bb));
            } else {
                assert(full_idx_c[bb] == 0);
                assert(index_id(full_idx_c, bb) == 0);
            }
        }
    }
    let cat = ChunkCatalogue { dense, index_start, index_continue };
    proof {
        broadcast use vstd::seq_lib::group_seq_properties;

        let views = cat.dense@.map_values(|v: Vec<u8>| v@);
        views.lemma_cardinality_of_set();
        let s = views.to_set();
        assert forall|p: Property, bb: int| 0 <= bb < 2176 implies #[trigger] family_covers(
            s,
            *props,
            exclusions@,
            p,
            bb,
        ) by {
            let id = if p == Property::Start {
                index_id(cat.index_start@, bb)
            } else {
                index_id(cat.index_continue@, bb)
            };
            assert(chunk_matches(cat.dense@[id]@, *props, exclusions@, p, bb));
            assert(views[id] == cat.dense@[id]@);
            assert(views.contains(views[id]));
            assert(s.contains(views[id]));
        }
        assert(s.finite() && s.len() <= 256);
    }
    Ok(cat)
}

/// A catalogue of pairwise distinct required chunk values yields a family
/// of exactly its size.
pub proof fn lemma_catalogue_family(dense: Seq<Vec<u8>>, props: Properties, exclusions: Seq<u32>)
    requires
        catalogue_wf(dense),
        forall|i: int|
            0 <= i < dense.len() ==> ((#[trigger] dense[i])@ == zero_chunk() || exists|
                p: Property,
                bb: int,
            | 0 <= bb < 2176 && chunk_matches(dense[i]@, props, exclusions, p, bb)),
    ensures
        exists|s: Set<Seq<u8>>|
            s.finite() && s.len() == dense.len() && forall|c: Seq<u8>|
                #[trigger] s.contains(c) ==> (c == zero_chunk() || exists|p: Property, b: int|
                    0 <= b < 2176 && chunk_matches(c, props, exclusions, p, b)),
{
    broadcast use vstd::seq_lib::group_seq_properties;

    let views = dense.map_values(|v: Vec<u8>| v@);
    assert forall|i: int, j: int| 0 <= i < j < views.len() implies views[i] != views[j] by {
        assert(dense[i]@ != dense[j]@);
    }
    assert(views.no_duplicates());
    views.unique_seq_to_set();
    let s = views.to_set();
    assert forall|c: Seq<u8>| #[trigger] s.contains(c) implies (c == zero_chunk() || exists|
        p: Property,
        b: int,
    | 0 <= b < 2176 && chunk_matches(c, props, exclusions, p, b)) by {
        let i = choose|i: int| 0 <= i < views.len() && views[i] == c;
        assert(dense[i]@ == c);
    }
    assert(s.finite() && s.len() == dense.len() && forall|c: Seq<u8>|
        #[trigger] s.contains(c) ==> (c == zero_chunk() || exists|p: Property, b: int|
            0 <= b < 2176 && chunk_matches(c, props, exclusions, p, b)));
}

/// From a full catalogue and one more chunk that is in it not yet, all
/// entries being required by the input, a family of 257 distinct required
/// chunk values exists.
proof fn lemma_cap_family(
    dense: Seq<Vec<u8>>,
    extra: Seq<u8>,
    props: Properties,
    exclusions: Seq<u32>,
)
    requires
        dense.len() == 256,
        catalogue_wf(dense),
        forall|i: int|
            0 <= i < dense.len() ==> ((#[trigger] dense[i])@ == zero_chunk() || exists|
                p: Property,
                bb: int,
            | 0 <= bb < 2176 && chunk_matches(dense[i]@, props, exclusions, p, bb)),
        forall|i: int| 0 <= i < dense.len() ==> (#[trigger] dense[i])@ != extra,
        extra == zero_chunk() || exists|p: Property, bb: int|
            0 <= bb < 2176 && chunk_matches(extra, props, exclusions, p, bb),
    ensures
        exists|s: Set<Seq<u8>>|
            s.finite() && s.len() == 257 && forall|c: Seq<u8>|
                #[trigger] s.contains(c) ==> (c == zero_chunk() || exists|p: Property, b: int|
                    0 <= b < 2176 && chunk_matches(c, props, exclusions, p, b)),
{
    broadcast use vstd::seq_lib::group_seq_properties;

    let views = dense.map_values(|v: Vec<u8>| v@);
    assert(views.len() == 256);
    assert forall|i: int, j: int| 0 <= i < j < views.len() implies views[i] != views[j] by {
        assert(dense[i]@ != dense[j]@);
    }
    assert(views.no_duplicates());
    views.unique_seq_to_set();
    let base = views.to_set();
    assert(base.len() == 256);
    assert(!base.contains(extra)) by {
        if base.contains(extra) {
            let i = choose|i: int| 0 <= i < views.len() && views[i] == extra;
            assert(dense[i]@ == extra);
        }
    }
    let s = base.insert(extra);
    assert(s.len() == 257);
    assert forall|c: Seq<u8>| #[trigger] s.contains(c) implies (c == zero_chunk() || exists|
        p: Property,
        b: int,
    | 0 <= b < 2176 && chunk_matches(c, props, exclusions, p, b)) by {
        if c != extra {
            assert(base.contains(c));
            let i = choose|i: int| 0 <= i < views.len() && views[i] == c;
            assert(dense[i]@ == c);
        }
    }
    assert(s.finite() && s.len() == 257 && forall|c: Seq<u8>|
        #[trigger] s.contains(c) ==> (c == zero_chunk() || exists|p: Property, b: int|
            0 <= b < 2176 && chunk_matches(c, props, exclusions, p, b)));
}

} // verus!
