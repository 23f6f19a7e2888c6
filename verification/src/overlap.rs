use vstd::prelude::*;

use crate::BuildError;

verus! {

/// Every chunk in the catalogue is 64 bytes long.
pub open spec fn chunks_sized(dense: Seq<Vec<u8>>) -> bool {
    forall|i: int| 0 <= i < dense.len() ==> (#[trigger] dense[i])@.len() == 64
}

/// Chunk `i` may be fused in front of chunk `j`: they are different
/// catalogue entries and the trailing 32 bytes of `i` equal the leading 32
/// bytes of `j`.
pub open spec fn fusable(dense: Seq<Vec<u8>>, i: int, j: int) -> bool {
    &&& 0 <= i < dense.len()
    &&& 0 <= j < dense.len()
    &&& i != j
    &&& forall|t: int| 0 <= t < 32 ==> dense[i]@[32 + t] == dense[j]@[t]
}

/// `m` is a valid matching from right vertices (each chunk, as fusion
/// target) to left vertices (each chunk, as fusion source): every edge is a
/// legal fusion and no left vertex is claimed by two right vertices.
pub open spec fn matching_wf(dense: Seq<Vec<u8>>, m: Seq<Option<usize>>) -> bool {
    &&& m.len() == dense.len()
    &&& forall|j: int| 0 <= j < m.len() ==> (#[trigger] m[j] matches Some(l) ==> fusable(dense, l as int, j))
    &&& forall|j1: int, j2: int|
        0 <= j1 < m.len() && 0 <= j2 < m.len() && #[trigger] m[j1] == #[trigger] m[j2] && m[j1] is Some
            ==> j1 == j2
}

/// Left vertex `l` is claimed by some right vertex in `m`.
pub open spec fn matched_left(m: Seq<Option<usize>>, l: usize) -> bool {
    exists|j: int| #![trigger m[j]] 0 <= j < m.len() && m[j] == Some(l)
}

/// No fusable pair is left with both sides idle: the source of every edge
/// is fused forward somewhere, or its target is already fused into. This
/// is what the augmenting-path rounds guarantee: a vertex which fails to
/// match in one round cannot succeed in a later one.
pub open spec fn matching_maximal(dense: Seq<Vec<u8>>, m: Seq<Option<usize>>) -> bool {
    forall|i: int, j: int|
        0 <= i < dense.len() && 0 <= j < dense.len() && #[trigger] fusable(dense, i, j) ==> (
        matched_left(m, i as usize) || m[j] is Some)
}

/// `succ` is the inversion of the matching `m`, with every edge into chunk
/// 0 discarded so that chunk 0 stays a chain head.
pub open spec fn succ_inverts(m: Seq<Option<usize>>, succ: Seq<Option<usize>>) -> bool {
    &&& succ.len() == m.len()
    &&& forall|i: int|
        0 <= i < succ.len() ==> (#[trigger] succ[i] matches Some(j) ==> 1 <= (j as int) < m.len()
            && m[j as int] == Some(i as usize))
    &&& forall|j: int|
        1 <= j < m.len() ==> (#[trigger] m[j] matches Some(i) ==> succ[i as int] == Some(
        j as usize))
}

/// Number of set entries of a boolean sequence.
pub open spec fn count_true(s: Seq<bool>) -> int
    decreases s.len(),
{
    if s.len() == 0 {
        0
    } else {
        count_true(s.drop_last()) + if s[s.len() - 1] {
            1int
        } else {
            0int
        }
    }
}

/// Number of links present in a successor table: the planned fusions.
pub open spec fn count_some(s: Seq<Option<usize>>) -> int
    decreases s.len(),
{
    if s.len() == 0 {
        0
    } else {
        count_some(s.drop_last()) + if s[s.len() - 1] is Some {
            1int
        } else {
            0int
        }
    }
}

proof fn lemma_count_true_all_true(s: Seq<bool>)
    requires
        forall|i: int| 0 <= i < s.len() ==> s[i],
    ensures
        count_true(s) == s.len(),
    decreases s.len(),
{
    if s.len() > 0 {
        lemma_count_true_all_true(s.drop_last());
    }
}

proof fn lemma_count_true_bounds(s: Seq<bool>)
    ensures
        0 <= count_true(s) <= s.len(),
    decreases s.len(),
{
    if s.len() > 0 {
        lemma_count_true_bounds(s.drop_last());
    }
}

proof fn lemma_count_true_update(s: Seq<bool>, i: int, v: bool)
    requires
        0 <= i < s.len(),
    ensures
        count_true(s.update(i, v)) == count_true(s) - (if s[i] {
            1int
        } else {
            0int
        }) + (if v {
            1int
        } else {
            0int
        }),
    decreases s.len(),
{
    let su = s.update(i, v);
    if i == s.len() - 1 {
        assert(su.drop_last() =~= s.drop_last());
    } else {
        assert(su.drop_last() =~= s.drop_last().update(i, v));
        lemma_count_true_update(s.drop_last(), i, v);
    }
}

proof fn lemma_count_true_mono(s1: Seq<bool>, s2: Seq<bool>)
    requires
        s1.len() == s2.len(),
        forall|i: int| 0 <= i < s1.len() && s1[i] ==> s2[i],
    ensures
        count_true(s1) <= count_true(s2),
    decreases s1.len(),
{
    if s1.len() > 0 {
        lemma_count_true_mono(s1.drop_last(), s2.drop_last());
    }
}

/// Strict growth of the visited set: `s2` extends `s1` and flips index `i`.
proof fn lemma_count_true_strict(s1: Seq<bool>, s2: Seq<bool>, i: int)
    requires
        s1.len() == s2.len(),
        forall|k: int| 0 <= k < s1.len() && s1[k] ==> s2[k],
        0 <= i < s1.len(),
        !s1[i],
        s2[i],
    ensures
        count_true(s1) < count_true(s2),
{
    let mid = s1.update(i, true);
    lemma_count_true_update(s1, i, true);
    lemma_count_true_mono(mid, s2);
}

/// Byte-wise test whether the trailing half of `a` equals the leading half
/// of `b`.
fn halves_match(a: &Vec<u8>, b: &Vec<u8>) -> (r: bool)
    requires
        a@.len() == 64,
        b@.len() == 64,
    ensures
        r == (forall|t: int| 0 <= t < 32 ==> a@[32 + t] == b@[t]),
{
    let mut t: usize = 0;
    while t < 32
        invariant
            a@.len() == 64,
            b@.len() == 64,
            t <= 32,
            forall|tt: int| 0 <= tt < t ==> a@[32 + tt] == b@[tt],
        decreases 32 - t,
    {
        if a[32 + t] != b[t] {
            assert(!(a@[32 + t as int] == b@[t as int]));
            return false;
        }
        t = t + 1;
    }
    true
}

/// One augmenting-path attempt: left vertex `left` tries to claim a free or
/// reclaimable right vertex, recursively re-seating the left vertex it
/// evicts. On failure the matching is returned exactly as it was.
#[verifier::loop_isolation(false)]
fn try_assign(
    dense: &Vec<Vec<u8>>,
    left: usize,
    match_r: &mut Vec<Option<usize>>,
    visited: &mut Vec<bool>,
) -> (r: bool)
    requires
        chunks_sized(dense@),
        old(match_r)@.len() == dense@.len(),
        old(visited)@.len() == dense@.len(),
        left < dense@.len(),
        matching_wf(dense@, old(match_r)@),
        !matched_left(old(match_r)@, left),
        forall|k: int| 0 <= k < dense@.len() && old(visited)@[k] ==> old(match_r)@[k] is Some,
    ensures
        final(match_r)@.len() == dense@.len(),
        final(visited)@.len() == dense@.len(),
        forall|k: int| 0 <= k < dense@.len() && old(visited)@[k] ==> final(visited)@[k],
        matching_wf(dense@, final(match_r)@),
        forall|k: int|
            0 <= k < dense@.len() && old(match_r)@[k] is Some ==> final(match_r)@[k] is Some,
        r ==> forall|l: usize|
            matched_left(final(match_r)@, l) == (matched_left(old(match_r)@, l) || l == left),
        !r ==> final(match_r)@ == old(match_r)@,
        !r ==> forall|k: int|
            0 <= k < dense@.len() && fusable(dense@, left as int, k) ==> final(visited)@[k],
        !r ==> forall|k: int|
            0 <= k < dense@.len() && final(visited)@[k] ==> final(match_r)@[k] is Some,
    decreases dense@.len() - count_true(visited@),
{
    proof {
        lemma_count_true_bounds(visited@);
    }
    let n = dense.len();
    let mut j: usize = 0;
    while j < n
        invariant
            chunks_sized(dense@),
            n == dense@.len(),
            match_r@.len() == n,
            visited@.len() == n,
            left < n,
            j <= n,
            matching_wf(dense@, match_r@),
            match_r@ == old(match_r)@,
            forall|k: int| 0 <= k < n && old(visited)@[k] ==> visited@[k],
            count_true(old(visited)@) <= count_true(visited@),
            forall|k: int| 0 <= k < j && fusable(dense@, left as int, k) ==> visited@[k],
            forall|k: int| 0 <= k < n && visited@[k] ==> match_r@[k] is Some,
        decreases n - j,
    {
        if j != left && !visited[j] {
            if halves_match(&dense[left], &dense[j]) {
                let ghost pre_visited = visited@;
                visited.set(j, true);
                proof {
                    lemma_count_true_strict(pre_visited, visited@, j as int);
                    lemma_count_true_bounds(visited@);
                }
                let prev = match_r[j];
                let ghost pre = match_r@;
                match_r.set(j, Some(left));
                proof {
                    assert(fusable(dense@, left as int, j as int));
                    assert forall|j1: int, j2: int|
                        0 <= j1 < n && 0 <= j2 < n && #[trigger] match_r@[j1] == #[trigger] match_r@[j2]
                            && match_r@[j1] is Some implies j1 == j2 by {
                        if j1 != j2 {
                            if j1 == j as int {
                                assert(match_r@[j1] == Some(left));
                                assert(pre[j2] == Some(left));
                                assert(matched_left(pre, left));
                            } else if j2 == j as int {
                                assert(match_r@[j2] == Some(left));
                                assert(pre[j1] == Some(left));
                                assert(matched_left(pre, left));
                            } else {
                                assert(pre[j1] == match_r@[j1]);
                                assert(pre[j2] == match_r@[j2]);
                            }
                        }
                    }
                }
                match prev {
                    None => {
                        proof {
                            assert forall|l: usize|
                                matched_left(match_r@, l) == (matched_left(pre, l) || l == left) by {
                                if matched_left(pre, l) {
                                    let jw = choose|jw: int|
                                        0 <= jw < pre.len() && #[trigger] pre[jw] == Some(l);
                                    assert(jw != j as int);
                                    assert(match_r@[jw] == Some(l));
                                }
                                if l == left {
                                    assert(match_r@[j as int] == Some(l));
                                }
                                if matched_left(match_r@, l) && l != left {
                                    let jw = choose|jw: int|
                                        0 <= jw < n && #[trigger] match_r@[jw] == Some(l);
                                    assert(jw != j as int);
                                    assert(pre[jw] == Some(l));
                                }
                            }
                        }
                        return true;
                    },
                    Some(evicted) => {
                        proof {
                            // the evicted left vertex sat only at j, so it is free now
                            assert(pre[j as int] == Some(evicted));
                            if evicted == left {
                                assert(matched_left(pre, left));
                            }
                            assert(evicted != left);
                            assert forall|jw: int|
                                0 <= jw < n implies !(#[trigger] match_r@[jw] == Some(evicted)) by {
                                if match_r@[jw] == Some(evicted) {
                                    assert(jw != j as int);
                                    assert(pre[jw] == Some(evicted));
                                    assert(pre[j as int] == Some(evicted));
                                }
                            }
                            assert(evicted < n);
                            // every visited right is matched in the updated map
                            assert forall|k: int|
                                0 <= k < n && visited@[k] implies match_r@[k] is Some by {
                                if k != j as int {
                                    assert(pre[k] == match_r@[k]);
                                }
                            }
                        }
                        let ghost mid = match_r@;
                        if try_assign(dense, evicted, match_r, visited) {
                            proof {
                                assert forall|l: usize|
                                    matched_left(match_r@, l) == (matched_left(pre, l) || l
                                        == left) by {
                                    assert(matched_left(match_r@, l) == (matched_left(mid, l) || l
                                        == evicted));
                                    assert(matched_left(pre, evicted)) by {
                                        assert(pre[j as int] == Some(evicted));
                                    }
                                    // relate mid to pre
                                    if matched_left(mid, l) && l != left {
                                        let jw = choose|jw: int|
                                            0 <= jw < n && #[trigger] mid[jw] == Some(l);
                                        assert(jw != j as int);
                                        assert(pre[jw] == Some(l));
                                    }
                                    if matched_left(pre, l) && l != evicted {
                                        let jw = choose|jw: int|
                                            0 <= jw < n && #[trigger] pre[jw] == Some(l);
                                        assert(jw != j as int);
                                        assert(mid[jw] == Some(l));
                                    }
                                    if l == left {
                                        assert(mid[j as int] == Some(l));
                                    }
                                }
                            }
                            return true;
                        }
                        let ghost after_fail = match_r@;
                        match_r.set(j, prev);
                        proof {
                            assert(after_fail == mid);
                            assert(match_r@ =~= pre);
                            lemma_count_true_mono(old(visited)@, visited@);
                            // the restore keeps every visited right matched
                            assert forall|k: int|
                                0 <= k < n && visited@[k] implies match_r@[k] is Some by {
                                assert(mid[k] is Some);
                                if k != j as int {
                                    assert(match_r@[k] == mid[k]);
                                } else {
                                    assert(match_r@[j as int] == prev);
                                }
                            }
                        }
                    },
                }
            }
        }
        j = j + 1;
    }
    false
}

/// Builds a matching over the whole catalogue: every chunk in turn attempts
/// an augmenting path.
fn compute_matching(dense: &Vec<Vec<u8>>) -> (match_r: Vec<Option<usize>>)
    requires
        chunks_sized(dense@),
    ensures
        matching_wf(dense@, match_r@),
        matching_maximal(dense@, match_r@),
{
    let n = dense.len();
    let mut match_r: Vec<Option<usize>> = vec![None; n];
    let mut i: usize = 0;
    while i < n
        invariant
            chunks_sized(dense@),
            n == dense@.len(),
            match_r@.len() == n,
            matching_wf(dense@, match_r@),
            forall|l: usize| matched_left(match_r@, l) ==> l < i,
            forall|ii: int, jx: int|
                0 <= ii < i && 0 <= jx < n && #[trigger] fusable(dense@, ii, jx) ==> (
                matched_left(match_r@, ii as usize) || match_r@[jx] is Some),
        decreases n - i,
    {
        let mut visited: Vec<bool> = vec![false; n];
        let ghost pre = match_r@;
        let claimed = try_assign(dense, i, &mut match_r, &mut visited);
        proof {
            if claimed {
                assert forall|l: usize| matched_left(match_r@, l) implies l < i + 1 by {
                    assert(matched_left(pre, l) || l == i);
                }
            }
            assert forall|ii: int, jx: int|
                0 <= ii < i + 1 && 0 <= jx < n && #[trigger] fusable(dense@, ii, jx) implies (
            matched_left(match_r@, ii as usize) || match_r@[jx] is Some) by {
                if ii < i {
                    if matched_left(pre, ii as usize) {
                        if claimed {
                            assert(matched_left(match_r@, ii as usize));
                        } else {
                            assert(match_r@ == pre);
                        }
                    } else {
                        assert(pre[jx] is Some);
                        assert(match_r@[jx] is Some);
                    }
                } else {
                    if claimed {
                        assert(matched_left(match_r@, i as usize));
                    } else {
                        // the failed round visited i's whole neighbourhood,
                        // and every visited right is matched
                        assert(visited@[jx]);
                        assert(match_r@[jx] is Some);
                    }
                }
            }
        }
        i = i + 1;
    }
    match_r
}

/// A successor table is well formed: each link is a legal fusion, no two
/// chunks share a successor, and chunk 0 is never a successor (it must stay
/// a chain head at offset 0).
pub open spec fn succ_wf(dense: Seq<Vec<u8>>, succ: Seq<Option<usize>>) -> bool {
    &&& succ.len() == dense.len()
    &&& forall|i: int|
        0 <= i < succ.len() ==> (#[trigger] succ[i] matches Some(j) ==> 1 <= (j as int)
            < dense.len() && fusable(dense, i, j as int))
    &&& forall|i1: int, i2: int|
        0 <= i1 < succ.len() && 0 <= i2 < succ.len() && #[trigger] succ[i1] == #[trigger] succ[i2]
            && succ[i1] is Some ==> i1 == i2
}

/// Computes the fusion plan: augmenting-path rounds build a maximum
/// matching over the overlap graph, and the matching is inverted into a
/// successor table, discarding any incoming edge into chunk 0 so that it
/// stays a chain head. The contract states inclusion-maximality of the
/// witness matching — no fusable pair is left with both sides idle (the
/// one planned fusion the table itself may not show is an edge into chunk
/// 0, sacrificed by the fixup) — which is what the compactness bounds
/// rest on; that the augmenting-path rounds in fact reach the maximum
/// cardinality is a classical result not restated here.
pub fn plan_fusions(dense: &Vec<Vec<u8>>) -> (succ: Vec<Option<usize>>)
    requires
        chunks_sized(dense@),
    ensures
        succ_wf(dense@, succ@),
        // every planned fusion overlaps 32 equal bytes and never fuses a
        // chunk to itself
        forall|i: int|
            0 <= i < succ@.len() ==> (#[trigger] succ@[i] matches Some(j) ==> i != (j as int)
                && dense@[i]@.subrange(32, 64) == dense@[j as int]@.subrange(0, 32)),
        // the table comes from a maximal matching
        exists|m: Seq<Option<usize>>|
            matching_wf(dense@, m) && matching_maximal(dense@, m) && succ_inverts(m, succ@),
{
    let match_r = compute_matching(dense);
    let n = match_r.len();
    let mut succ: Vec<Option<usize>> = vec![None; n];
    let mut j: usize = 1;
    while j < n
        invariant
            chunks_sized(dense@),
            n == dense@.len(),
            match_r@.len() == n,
            succ@.len() == n,
            matching_wf(dense@, match_r@),
            matching_maximal(dense@, match_r@),
            1 <= j <= n || n == 0,
            forall|i: int|
                0 <= i < n ==> (#[trigger] succ@[i] matches Some(jj) ==> 1 <= (jj as int) < j
                    && match_r@[jj as int] == Some(i as usize)),
            forall|jj: int|
                1 <= jj < j ==> (#[trigger] match_r@[jj] matches Some(ii) ==> succ@[ii as int]
                    == Some(jj as usize)),
        decreases n - j,
    {
        let ghost pre_succ = succ@;
        match match_r[j] {
            Some(i) => {
                succ.set(i, Some(j));
                proof {
                    // the overwritten slot cannot have carried an earlier
                    // inversion entry: that would give i two right partners
                    assert forall|jj: int|
                        1 <= jj < j + 1 implies (#[trigger] match_r@[jj] matches Some(ii)
                        ==> succ@[ii as int] == Some(jj as usize)) by {
                        if match_r@[jj] is Some && jj < j {
                            let ii = match_r@[jj]->Some_0;
                            if ii as int == i as int {
                                assert(match_r@[jj] == match_r@[j as int]);
                            } else {
                                assert(succ@[ii as int] == pre_succ[ii as int]);
                            }
                        }
                    }
                }
            },
            None => {},
        }
        j = j + 1;
    }
    proof {
        assert forall|i1: int, i2: int|
            0 <= i1 < n && 0 <= i2 < n && #[trigger] succ@[i1] == #[trigger] succ@[i2]
                && succ@[i1] is Some implies i1 == i2 by {
            if succ@[i1] is Some {
                let jj = succ@[i1]->Some_0;
                assert(match_r@[jj as int] == Some(i1 as usize));
                assert(match_r@[jj as int] == Some(i2 as usize));
            }
        }
        assert forall|i: int|
            0 <= i < succ@.len() implies (#[trigger] succ@[i] matches Some(jv) ==> i != (
            jv as int) && dense@[i]@.subrange(32, 64) == dense@[jv as int]@.subrange(0, 32)) by {
            if succ@[i] is Some {
                let jv = succ@[i]->Some_0;
                assert(fusable(dense@, i, jv as int));
                assert(dense@[i]@.subrange(32, 64) =~= dense@[jv as int]@.subrange(0, 32));
            }
        }
        assert(succ_inverts(match_r@, succ@));
    }
    succ
}

/// The chunks already placed as fused successors: assigned and fed by a
/// predecessor.
spec fn fused_set(assigned: Seq<bool>, has_pred: Seq<bool>) -> Seq<bool> {
    Seq::new(assigned.len(), |c: int| assigned[c] && has_pred[c])
}

/// Chunk `chunk` sits in full at half-chunk offset `off` of the compressed
/// array.
pub open spec fn placed_at(leaf: Seq<u8>, off: int, chunk: Seq<u8>) -> bool {
    &&& off * 32 + 64 <= leaf.len()
    &&& forall|t: int| 0 <= t < 64 ==> leaf[off * 32 + t] == chunk[t]
}

/// Appends all 64 bytes of a chunk.
fn append_chunk(leaf: &mut Vec<u8>, chunk: &Vec<u8>)
    requires
        chunk@.len() == 64,
    ensures
        final(leaf)@ == old(leaf)@ + chunk@,
{
    leaf.extend_from_slice(chunk.as_slice());
}

/// Appends only the trailing 32 bytes of a chunk (its leading half is
/// already present as the previous chunk's trailing half).
#[verifier::loop_isolation(false)]
fn append_back_half(leaf: &mut Vec<u8>, chunk: &Vec<u8>)
    requires
        chunk@.len() == 64,
    ensures
        final(leaf)@.len() == old(leaf)@.len() + 32,
        forall|t: int| 0 <= t < old(leaf)@.len() ==> #[trigger] final(leaf)@[t] == old(leaf)@[t],
        forall|t: int| 0 <= t < 32 ==> #[trigger] final(leaf)@[old(leaf)@.len() + t] == chunk@[32
            + t],
{
    let mut t: usize = 32;
    while t < 64
        invariant
            32 <= t <= 64,
            leaf@.len() == old(leaf)@.len() + t - 32,
            forall|u: int| 0 <= u < old(leaf)@.len() ==> #[trigger] leaf@[u] == old(leaf)@[u],
            forall|u: int| 0 <= u < t - 32 ==> #[trigger] leaf@[old(leaf)@.len() + u] == chunk@[32
                + u],
        decreases 64 - t,
    {
        leaf.push(chunk[t]);
        t = t + 1;
    }
}

/// Lays the chunk chains out into the halfdense array. Every chain head is
/// emitted in full; each successor contributes only its trailing half,
/// overlapping the 32 bytes already present. Returns the array and the
/// half-chunk offset assigned to every chunk.
#[verifier::loop_isolation(false)]
pub fn lay_out(dense: &Vec<Vec<u8>>, succ: &Vec<Option<usize>>) -> (r: Result<
    (Vec<u8>, Vec<u8>),
    BuildError,
>)
    requires
        chunks_sized(dense@),
        1 <= dense@.len() <= 256,
        succ_wf(dense@, succ@),
    ensures
        match r {
            Ok((leaf, offs)) => {
                &&& offs@.len() == dense@.len()
                &&& 64 <= leaf@.len() <= 64 * dense@.len()
                // every chain head costs 64 bytes, every fusion saves
                // exactly 32 of them
                &&& leaf@.len() == 64 * dense@.len() - 32 * count_some(succ@)
                &&& offs@[0] == 0
                &&& forall|c: int|
                    0 <= c < dense@.len() ==> placed_at(leaf@, (#[trigger] offs@[c]) as int, dense@[c]@)
            },
            Err(e) => {
                &&& (e == BuildError::TooManyHalfChunks || e == BuildError::ResidualChunk)
                // offsets can only run out once at least 128 chunks are placed
                &&& e == BuildError::TooManyHalfChunks ==> dense@.len() >= 128
                // a chunk can only stay unplaced behind a fusion link
                &&& e == BuildError::ResidualChunk ==> exists|x: int|
                    0 <= x < succ@.len() && (#[trigger] succ@[x]) is Some
            },
        },
{
    let n = dense.len();
    let mut has_pred: Vec<bool> = vec![false; n];
    proof {
        lemma_count_true_all_false(has_pred@);
        assert(succ@.subrange(0, 0) =~= Seq::<Option<usize>>::empty());
    }
    let mut i: usize = 0;
    while i < n
        invariant
            i <= n,
            has_pred@.len() == n,
            forall|c: int|
                0 <= c < n && #[trigger] has_pred@[c] ==> exists|x: int|
                    0 <= x < i && #[trigger] succ@[x] == Some(c as usize),
            forall|x: int|
                0 <= x < i ==> (#[trigger] succ@[x] matches Some(c) ==> has_pred@[c as int]),
            count_true(has_pred@) == count_some(succ@.subrange(0, i as int)),
        decreases n - i,
    {
        let ghost pre_hp = has_pred@;
        match succ[i] {
            Some(jj) => {
                has_pred.set(jj, true);
                proof {
                    // no two chunks share a successor, so the target is new
                    assert(!pre_hp[jj as int]) by {
                        if pre_hp[jj as int] {
                            let x = choose|x: int|
                                0 <= x < i && #[trigger] succ@[x] == Some(jj);
                        }
                    }
                    lemma_count_true_update(pre_hp, jj as int, true);
                }
            },
            None => {},
        }
        proof {
            assert(succ@.subrange(0, i + 1).drop_last() =~= succ@.subrange(0, i as int));
        }
        i = i + 1;
    }
    proof {
        assert(succ@.subrange(0, n as int) =~= succ@);
        assert(count_true(has_pred@) == count_some(succ@));
    }

    let mut leaf: Vec<u8> = Vec::new();
    let mut offs: Vec<u8> = vec![0u8; n];
    let mut assigned: Vec<bool> = vec![false; n];
    proof {
        lemma_count_true_all_false(assigned@);
        lemma_count_true_all_false(fused_set(assigned@, has_pred@));
    }
    let mut i: usize = 0;
    while i < n
        invariant
            i <= n,
            n == dense@.len(),
            has_pred@.len() == n,
            offs@.len() == n,
            assigned@.len() == n,
            leaf@.len() % 32 == 0,
            i == 0 ==> leaf@.len() == 0,
            leaf@.len() <= 64 * count_true(assigned@),
            leaf@.len() == 64 * count_true(assigned@) - 32 * count_true(
                fused_set(assigned@, has_pred@),
            ),
            0 <= count_true(assigned@) <= n,
            forall|c: int|
                0 <= c < n && #[trigger] has_pred@[c] ==> exists|x: int|
                    0 <= x < n && #[trigger] succ@[x] == Some(c as usize),
            forall|x: int|
                0 <= x < n ==> (#[trigger] succ@[x] matches Some(c) ==> has_pred@[c as int]),
            forall|c: int| 0 <= c < i && !(#[trigger] has_pred@[c]) ==> assigned@[c],
            forall|c: int| 0 <= c < n && #[trigger] assigned@[c] ==> (has_pred@[c] || c < i),
            assigned@[0] ==> offs@[0] == 0,
            forall|c: int|
                0 <= c < n && #[trigger] assigned@[c] ==> placed_at(
                    leaf@,
                    offs@[c] as int,
                    dense@[c]@,
                ),
        decreases n - i,
    {
        if !has_pred[i] {
            assert(!assigned@[i as int]);
            if leaf.len() / 32 > 255 {
                proof {
                    lemma_count_true_bounds(assigned@);
                    assert(leaf@.len() >= 256 * 32);
                }
                return Err(BuildError::TooManyHalfChunks);
            }
            let off_head = (leaf.len() / 32) as u8;
            let ghost pre_leaf = leaf@;
            let ghost pre_assigned = assigned@;
            offs.set(i, off_head);
            append_chunk(&mut leaf, &dense[i]);
            assigned.set(i, true);
            proof {
                lemma_count_true_update(pre_assigned, i as int, true);
                lemma_count_true_bounds(assigned@);
                // a head is not fed by anyone, so the fused count is unchanged
                assert(fused_set(assigned@, has_pred@) =~= fused_set(pre_assigned, has_pred@));
                assert(leaf@.len() == pre_leaf.len() + 64);
                assert((off_head as int) * 32 == pre_leaf.len());
                assert(!has_pred@[0]) by {
                    if has_pred@[0] {
                        let x = choose|x: int| 0 <= x < n && #[trigger] succ@[x] == Some(0usize);
                    }
                }
                if i == 0 {
                    assert(off_head == 0);
                } else {
                    assert(pre_assigned[0]);
                }
                assert(placed_at(leaf@, off_head as int, dense@[i as int]@)) by {
                    assert(forall|t: int|
                        0 <= t < 64 ==> leaf@[pre_leaf.len() + t] == dense@[i as int]@[t]);
                    assert((off_head as int) * 32 == pre_leaf.len());
                }
                assert forall|c: int|
                    0 <= c < n && #[trigger] assigned@[c] implies placed_at(
                    leaf@,
                    offs@[c] as int,
                    dense@[c]@,
                ) by {
                    if c != i as int {
                        assert(pre_assigned[c]);
                        assert(placed_at(pre_leaf, offs@[c] as int, dense@[c]@));
                    }
                }
            }
            let mut cur: usize = i;
            loop
                invariant
                    cur < n,
                    assigned@[cur as int],
                    offs@.len() == n,
                    assigned@.len() == n,
                    leaf@.len() % 32 == 0,
                    leaf@.len() >= 64,
                    leaf@.len() <= 64 * count_true(assigned@),
                    leaf@.len() == 64 * count_true(assigned@) - 32 * count_true(
                        fused_set(assigned@, has_pred@),
                    ),
                    0 <= count_true(assigned@) <= n,
                    forall|t: int|
                        0 <= t < 32 ==> #[trigger] leaf@[leaf@.len() - 32 + t] == dense@[cur as int]@[32
                            + t],
                    forall|c: int| 0 <= c < i + 1 && !(#[trigger] has_pred@[c]) ==> assigned@[c],
                    forall|c: int|
                        0 <= c < n && #[trigger] assigned@[c] ==> (has_pred@[c] || c < i + 1),
                    assigned@[0] ==> offs@[0] == 0,
                    forall|c: int|
                        0 <= c < n && #[trigger] assigned@[c] ==> placed_at(
                            leaf@,
                            offs@[c] as int,
                            dense@[c]@,
                        ),
                decreases n - count_true(assigned@),
            {
                let nxt_opt = succ[cur];
                match nxt_opt {
                    None => { break; },
                    Some(nxt) => {
                        if assigned[nxt] {
                            proof {
                                assert(succ@[cur as int] is Some);
                            }
                            return Err(BuildError::ResidualChunk);
                        }
                        if leaf.len() / 32 - 1 > 255 {
                            proof {
                                lemma_count_true_bounds(assigned@);
                                assert(leaf@.len() >= 256 * 32);
                            }
                            return Err(BuildError::TooManyHalfChunks);
                        }
                        let off_next = (leaf.len() / 32 - 1) as u8;
                        let ghost pre_leaf = leaf@;
                        let ghost pre_assigned = assigned@;
                        offs.set(nxt, off_next);
                        append_back_half(&mut leaf, &dense[nxt]);
                        assigned.set(nxt, true);
                        proof {
                            lemma_count_true_update(pre_assigned, nxt as int, true);
                            lemma_count_true_bounds(assigned@);
                            // the fused successor raises the fused count by one
                            assert(has_pred@[nxt as int]);
                            assert(fused_set(assigned@, has_pred@) =~= fused_set(
                                pre_assigned,
                                has_pred@,
                            ).update(nxt as int, true));
                            assert(!fused_set(pre_assigned, has_pred@)[nxt as int]);
                            lemma_count_true_update(
                                fused_set(pre_assigned, has_pred@),
                                nxt as int,
                                true,
                            );
                            assert(fusable(dense@, cur as int, nxt as int));
                            assert((off_next as int) * 32 == pre_leaf.len() - 32);
                            assert(placed_at(leaf@, off_next as int, dense@[nxt as int]@)) by {
                                assert forall|t: int| 0 <= t < 64 implies leaf@[(off_next as int)
                                    * 32 + t] == dense@[nxt as int]@[t] by {
                                    if t < 32 {
                                        assert(leaf@[pre_leaf.len() - 32 + t] == pre_leaf[pre_leaf.len()
                                            - 32 + t]);
                                        assert(pre_leaf[pre_leaf.len() - 32 + t] == dense@[cur as int]@[32
                                            + t]);
                                        assert(dense@[cur as int]@[32 + t] == dense@[nxt as int]@[t]);
                                    } else {
                                        assert(leaf@[pre_leaf.len() + (t - 32)] == dense@[nxt as int]@[32
                                            + (t - 32)]);
                                    }
                                }
                            }
                            assert forall|c: int|
                                0 <= c < n && #[trigger] assigned@[c] implies placed_at(
                                leaf@,
                                offs@[c] as int,
                                dense@[c]@,
                            ) by {
                                if c != nxt as int {
                                    assert(pre_assigned[c]);
                                    assert(placed_at(pre_leaf, offs@[c] as int, dense@[c]@));
                                }
                            }
                            assert(has_pred@[nxt as int]);
                        }
                        cur = nxt;
                    },
                }
            }
        }
        i = i + 1;
    }
    let mut c: usize = 0;
    while c < n
        invariant
            c <= n,
            assigned@.len() == n,
            forall|cc: int| 0 <= cc < c ==> assigned@[cc],
        decreases n - c,
    {
        if !assigned[c] {
            proof {
                // an unassigned chunk is no chain head, so a link leads
                // into it
                assert(has_pred@[c as int]);
                let x = choose|x: int| 0 <= x < n && #[trigger] succ@[x] == Some(c);
                assert(succ@[x] is Some);
            }
            return Err(BuildError::ResidualChunk);
        }
        c = c + 1;
    }
    proof {
        assert(assigned@[0]);
        assert(placed_at(leaf@, offs@[0] as int, dense@[0]@));
        lemma_count_true_bounds(assigned@);
        assert forall|cc: int| 0 <= cc < n implies placed_at(
            leaf@,
            (#[trigger] offs@[cc]) as int,
            dense@[cc]@,
        ) by {
            assert(assigned@[cc]);
        }
        // with everything placed, the fused chunks are exactly those with
        // a predecessor, one per planned fusion
        lemma_count_true_all_true(assigned@);
        assert(fused_set(assigned@, has_pred@) =~= has_pred@);
        assert(leaf@.len() == 64 * n - 32 * count_some(succ@));
    }
    Ok((leaf, offs))
}

proof fn lemma_count_true_all_false(s: Seq<bool>)
    requires
        forall|i: int| 0 <= i < s.len() ==> !s[i],
    ensures
        count_true(s) == 0,
    decreases s.len(),
{
    if s.len() > 0 {
        lemma_count_true_all_false(s.drop_last());
    }
}

} // verus!
