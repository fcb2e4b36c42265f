//! Grouping of file records into duplicate groups.
//!
//! Both detection stages share one scheme: records are scanned in index
//! order; the first record not yet assigned opens a cluster and pulls in
//! every later unassigned record linked to it; clusters of at least two
//! become groups.  For exact duplicates the link is digest equality — an
//! equivalence, so the clusters are exactly the classes of records with
//! equal content.  For perceptual duplicates the link is a Hamming-distance
//! bound on the head's fingerprint, so the outcome deliberately depends on
//! the input order.

use vstd::prelude::*;
use vstd::pervasive::unreached;

use crate::duplicate_group::DuplicateGroup;
use crate::duplicate_group::is_selected_original;
use crate::exact_hash::digests_equal;
use crate::file_info::FileInfo;
use crate::perceptual_hash::PerceptualHasher;
use crate::perceptual_hash::popcount;

verus! {

/// Indices in `[lo, hi)` that a scan headed by `head` picks into its
/// cluster: those unassigned, eligible, and linked to the head.
pub open spec fn picked(
    head: int,
    lo: int,
    hi: int,
    assigned: Set<int>,
    elig: spec_fn(int) -> bool,
    linked: spec_fn(int, int) -> bool,
) -> Seq<int>
    decreases hi - lo,
    when lo <= hi
{
    if lo >= hi {
        Seq::empty()
    } else {
        let init = picked(head, lo, hi - 1, assigned, elig, linked);
        if !assigned.contains(hi - 1) && elig(hi - 1) && linked(head, hi - 1) {
            init.push(hi - 1)
        } else {
            init
        }
    }
}

/// The cluster a scan headed by `head` collects over `[head + 1, n)`.
pub open spec fn cluster_at(
    head: int,
    n: int,
    assigned: Set<int>,
    elig: spec_fn(int) -> bool,
    linked: spec_fn(int, int) -> bool,
) -> Seq<int> {
    seq![head] + picked(head, head + 1, n, assigned, elig, linked)
}

/// The clusters of at least two members that the scan emits from position
/// `i` on, given the records already assigned.
pub open spec fn clusters_from(
    i: int,
    n: int,
    assigned: Set<int>,
    elig: spec_fn(int) -> bool,
    linked: spec_fn(int, int) -> bool,
) -> Seq<Seq<int>>
    decreases n - i,
    when i <= n
{
    if i >= n {
        Seq::empty()
    } else if assigned.contains(i) || !elig(i) {
        clusters_from(i + 1, n, assigned, elig, linked)
    } else {
        let c = cluster_at(i, n, assigned, elig, linked);
        if c.len() > 1 {
            seq![c] + clusters_from(i + 1, n, assigned.union(c.to_set()), elig, linked)
        } else {
            clusters_from(i + 1, n, assigned.insert(i), elig, linked)
        }
    }
}

/// The whole scan: clusters over `[0, n)` with nothing assigned yet.
pub open spec fn link_clusters_spec(
    n: int,
    elig: spec_fn(int) -> bool,
    linked: spec_fn(int, int) -> bool,
) -> Seq<Seq<int>> {
    clusters_from(0, n, Set::empty(), elig, linked)
}

/// What a scan picks: indices in range, ascending, unassigned, eligible,
/// linked to the head; and every such index is picked.
pub proof fn lemma_picked_props(
    head: int,
    lo: int,
    hi: int,
    assigned: Set<int>,
    elig: spec_fn(int) -> bool,
    linked: spec_fn(int, int) -> bool,
)
    requires
        lo <= hi,
    ensures
        ({
            let p = picked(head, lo, hi, assigned, elig, linked);
            &&& forall|m: int| 0 <= m < p.len() ==> lo <= #[trigger] p[m] < hi
            &&& forall|m1: int, m2: int| 0 <= m1 < m2 < p.len() ==> p[m1] < p[m2]
            &&& forall|m: int| 0 <= m < p.len() ==> !assigned.contains(#[trigger] p[m])
                && elig(p[m]) && linked(head, p[m])
            &&& forall|j: int| lo <= j < hi && !assigned.contains(j) && elig(j)
                && linked(head, j) ==> p.contains(j)
        }),
    decreases hi - lo,
{
    if lo < hi {
        lemma_picked_props(head, lo, hi - 1, assigned, elig, linked);
        let init = picked(head, lo, hi - 1, assigned, elig, linked);
        let p = picked(head, lo, hi, assigned, elig, linked);
        if !assigned.contains(hi - 1) && elig(hi - 1) && linked(head, hi - 1) {
            assert forall|j: int|
                lo <= j < hi && !assigned.contains(j) && elig(j) && linked(head, j)
            implies p.contains(j) by {
                if j < hi - 1 {
                    assert(init.contains(j));
                    let m = choose|m: int| 0 <= m < init.len() && init[m] == j;
                    assert(p[m] == j);
                } else {
                    assert(p[p.len() - 1] == j);
                }
            }
        } else {
            assert forall|j: int|
                lo <= j < hi && !assigned.contains(j) && elig(j) && linked(head, j)
            implies p.contains(j) by {
                assert(init.contains(j));
            }
        }
    }
}

/// What the scan emits: every cluster has at least two members, all in
/// range and ascending, the head first, everyone eligible and unassigned,
/// and every later member linked to the head.
pub proof fn lemma_clusters_props(
    i: int,
    n: int,
    assigned: Set<int>,
    elig: spec_fn(int) -> bool,
    linked: spec_fn(int, int) -> bool,
)
    requires
        i <= n,
    ensures
        ({
            let cs = clusters_from(i, n, assigned, elig, linked);
            forall|k: int| 0 <= k < cs.len() ==> {
                let c = #[trigger] cs[k];
                &&& c.len() >= 2
                &&& forall|m: int| 0 <= m < c.len() ==> i <= #[trigger] c[m] < n
                &&& forall|m1: int, m2: int| 0 <= m1 < m2 < c.len() ==> c[m1] < c[m2]
                &&& forall|m: int| 0 <= m < c.len() ==> elig(#[trigger] c[m])
                    && !assigned.contains(c[m])
                &&& forall|m: int| 1 <= m < c.len() ==> linked(c[0], #[trigger] c[m])
            }
        }),
    decreases n - i,
{
    if i < n {
        if assigned.contains(i) || !elig(i) {
            lemma_clusters_props(i + 1, n, assigned, elig, linked);
            let cs = clusters_from(i + 1, n, assigned, elig, linked);
            assert forall|k: int| 0 <= k < cs.len() implies {
                let c = #[trigger] cs[k];
                forall|m: int| 0 <= m < c.len() ==> i <= #[trigger] c[m] < n
            } by {
                let c = cs[k];
                assert(forall|m: int| 0 <= m < c.len() ==> i + 1 <= #[trigger] c[m] < n);
            }
        } else {
            let c = cluster_at(i, n, assigned, elig, linked);
            lemma_picked_props(i, i + 1, n, assigned, elig, linked);
            if c.len() > 1 {
                lemma_clusters_props(i + 1, n, assigned.union(c.to_set()), elig, linked);
                let rest = clusters_from(i + 1, n, assigned.union(c.to_set()), elig, linked);
                let cs = clusters_from(i, n, assigned, elig, linked);
                assert(cs == seq![c] + rest);
                assert forall|k: int| 0 <= k < cs.len() implies {
                    let cc = #[trigger] cs[k];
                    &&& cc.len() >= 2
                    &&& forall|m: int| 0 <= m < cc.len() ==> i <= #[trigger] cc[m] < n
                    &&& forall|m1: int, m2: int| 0 <= m1 < m2 < cc.len() ==> cc[m1] < cc[m2]
                    &&& forall|m: int| 0 <= m < cc.len() ==> elig(#[trigger] cc[m])
                        && !assigned.contains(cc[m])
                    &&& forall|m: int| 1 <= m < cc.len() ==> linked(cc[0], #[trigger] cc[m])
                } by {
                    if k == 0 {
                        assert(cs[k] == c);
                        let p = picked(i, i + 1, n, assigned, elig, linked);
                        assert(forall|m: int| 1 <= m < c.len() ==> c[m] == p[m - 1]);
                    } else {
                        assert(cs[k] == rest[k - 1]);
                        let cc = rest[k - 1];
                        assert(forall|m: int| 0 <= m < cc.len()
                            ==> !assigned.union(c.to_set()).contains(#[trigger] cc[m]));
                    }
                }
            } else {
                lemma_clusters_props(i + 1, n, assigned.insert(i), elig, linked);
                let cs = clusters_from(i + 1, n, assigned.insert(i), elig, linked);
                assert forall|k: int| 0 <= k < cs.len() implies {
                    let cc = #[trigger] cs[k];
                    &&& forall|m: int| 0 <= m < cc.len() ==> i <= #[trigger] cc[m] < n
                    &&& forall|m: int| 0 <= m < cc.len() ==> elig(#[trigger] cc[m])
                        && !assigned.contains(cc[m])
                } by {
                    let cc = cs[k];
                    assert(forall|m: int| 0 <= m < cc.len()
                        ==> !assigned.insert(i).contains(#[trigger] cc[m]));
                }
            }
        }
    }
}

/// Two scans over pointwise-equal eligibility and link relations emit the
/// same clusters.
pub proof fn lemma_clusters_congruence(
    i: int,
    n: int,
    assigned: Set<int>,
    elig1: spec_fn(int) -> bool,
    linked1: spec_fn(int, int) -> bool,
    elig2: spec_fn(int) -> bool,
    linked2: spec_fn(int, int) -> bool,
)
    requires
        i <= n,
        forall|k: int| 0 <= k < n ==> #[trigger] elig1(k) == elig2(k),
        forall|a: int, b: int| 0 <= a < n && 0 <= b < n ==> #[trigger] linked1(a, b) == linked2(
            a,
            b,
        ),
        i >= 0,
    ensures
        clusters_from(i, n, assigned, elig1, linked1) == clusters_from(
            i,
            n,
            assigned,
            elig2,
            linked2,
        ),
    decreases n - i,
{
    if i < n {
        lemma_picked_congruence(i, i + 1, n, assigned, elig1, linked1, elig2, linked2);
        if assigned.contains(i) || !elig1(i) {
            lemma_clusters_congruence(i + 1, n, assigned, elig1, linked1, elig2, linked2);
        } else {
            let c = cluster_at(i, n, assigned, elig1, linked1);
            assert(c == cluster_at(i, n, assigned, elig2, linked2));
            if c.len() > 1 {
                lemma_clusters_congruence(
                    i + 1,
                    n,
                    assigned.union(c.to_set()),
                    elig1,
                    linked1,
                    elig2,
                    linked2,
                );
            } else {
                lemma_clusters_congruence(
                    i + 1,
                    n,
                    assigned.insert(i),
                    elig1,
                    linked1,
                    elig2,
                    linked2,
                );
            }
        }
    }
}

/// Two scans over pointwise-equal relations pick the same indices.
pub proof fn lemma_picked_congruence(
    head: int,
    lo: int,
    hi: int,
    assigned: Set<int>,
    elig1: spec_fn(int) -> bool,
    linked1: spec_fn(int, int) -> bool,
    elig2: spec_fn(int) -> bool,
    linked2: spec_fn(int, int) -> bool,
)
    requires
        0 <= lo <= hi,
        0 <= head < lo,
        forall|k: int| 0 <= k < hi ==> #[trigger] elig1(k) == elig2(k),
        forall|a: int, b: int| 0 <= a < hi && 0 <= b < hi ==> #[trigger] linked1(a, b) == linked2(
            a,
            b,
        ),
    ensures
        picked(head, lo, hi, assigned, elig1, linked1) == picked(
            head,
            lo,
            hi,
            assigned,
            elig2,
            linked2,
        ),
    decreases hi - lo,
{
    if lo < hi {
        lemma_picked_congruence(head, lo, hi - 1, assigned, elig1, linked1, elig2, linked2);
    }
}

/// One step of a pick scan: position `j` joins exactly when it is
/// unassigned, eligible and linked to the head.
pub proof fn lemma_picked_step(
    head: int,
    lo: int,
    j: int,
    assigned: Set<int>,
    elig: spec_fn(int) -> bool,
    linked: spec_fn(int, int) -> bool,
)
    requires
        lo <= j,
    ensures
        picked(head, lo, j + 1, assigned, elig, linked) == (if !assigned.contains(j) && elig(j)
            && linked(head, j) {
            picked(head, lo, j, assigned, elig, linked).push(j)
        } else {
            picked(head, lo, j, assigned, elig, linked)
        }),
{
}

/// The clusters of `r`, as mathematical index sequences.
pub open spec fn clusters_view(r: Seq<Vec<usize>>) -> Seq<Seq<int>> {
    r.map_values(|c: Vec<usize>| c@.map_values(|u: usize| u as int))
}

/// Eligibility drawn from a flag vector.
pub open spec fn elig_of(e: Seq<bool>) -> spec_fn(int) -> bool {
    |k: int| e[k]
}

/// The link relation drawn from a pairwise flag matrix.
pub open spec fn linked_of(l: Seq<Vec<bool>>) -> spec_fn(int, int) -> bool {
    |a: int, b: int| l[a]@[b]
}

/// Scans the records in index order and collects the clusters the link
/// matrix induces: the first eligible unassigned record opens a cluster
/// and pulls in every later unassigned eligible record linked to it;
/// clusters that stay singletons are dropped.
#[verifier::loop_isolation(false)]
pub fn link_clusters(elig: &Vec<bool>, linked: &Vec<Vec<bool>>) -> (r: Vec<Vec<usize>>)
    requires
        linked@.len() == elig@.len(),
        forall|k: int| 0 <= k < linked@.len() ==> (#[trigger] linked@[k])@.len() == elig@.len(),
    ensures
        clusters_view(r@) == link_clusters_spec(
            elig@.len() as int,
            elig_of(elig@),
            linked_of(linked@),
        ),
{
    let n = elig.len();
    let ghost ef = elig_of(elig@);
    let ghost lf = linked_of(linked@);
    let ghost full = link_clusters_spec(n as int, ef, lf);
    let mut assigned: Vec<bool> = Vec::new();
    for k in 0..n
        invariant
            assigned@.len() == k,
            forall|x: int| 0 <= x < k ==> !(#[trigger] assigned@[x]),
    {
        assigned.push(false);
    }
    let ghost mut aset: Set<int> = Set::empty();
    let mut r: Vec<Vec<usize>> = Vec::new();
    proof {
        assert(clusters_view(r@) + clusters_from(0, n as int, aset, ef, lf) =~= full);
    }
    let mut i: usize = 0;
    while i < n
        invariant
            i <= n,
            n == elig@.len(),
            n == linked@.len(),
            forall|k: int| 0 <= k < n ==> (#[trigger] linked@[k])@.len() == n,
            assigned@.len() == n,
            forall|x: int| 0 <= x < n ==> #[trigger] assigned@[x] == aset.contains(x),
            full == clusters_view(r@) + clusters_from(i as int, n as int, aset, ef, lf),
        decreases n - i,
    {
        if !assigned[i] && elig[i] {
            let ghost a0 = aset;
            proof {
                assert(!a0.contains(i as int) && ef(i as int));
            }
            let mut c: Vec<usize> = Vec::new();
            c.push(i);
            proof {
                assert(c@.map_values(|u: usize| u as int) =~= seq![i as int] + picked(
                    i as int,
                    i + 1,
                    i + 1,
                    a0,
                    ef,
                    lf,
                ));
            }
            let mut j: usize = i + 1;
            while j < n
                invariant
                    i < n,
                    i + 1 <= j <= n,
                    n == elig@.len(),
                    n == linked@.len(),
                    forall|k: int| 0 <= k < n ==> (#[trigger] linked@[k])@.len() == n,
                    assigned@.len() == n,
                    forall|x: int| 0 <= x < n ==> #[trigger] assigned@[x] == a0.contains(x),
                    c@.map_values(|u: usize| u as int) == seq![i as int] + picked(
                        i as int,
                        i + 1,
                        j as int,
                        a0,
                        ef,
                        lf,
                    ),
                    c@.len() >= 1,
                    forall|m: int| 0 <= m < c@.len() ==> #[trigger] c@[m] < n,
                decreases n - j,
            {
                proof {
                    lemma_picked_step(i as int, i + 1, j as int, a0, ef, lf);
                    assert(ef(j as int) == elig@[j as int]);
                    assert(lf(i as int, j as int) == linked@[i as int]@[j as int]);
                    assert(a0.contains(j as int) == assigned@[j as int]);
                }
                if !assigned[j] && elig[j] && linked[i][j] {
                    let ghost p0 = picked(i as int, i + 1, j as int, a0, ef, lf);
                    c.push(j);
                    proof {
                        assert(c@.map_values(|u: usize| u as int) =~= (seq![i as int]
                            + p0).push(j as int));
                        assert((seq![i as int] + p0).push(j as int) =~= seq![i as int] + p0.push(
                            j as int,
                        ));
                    }
                }
                j = j + 1;
            }
            let ghost cspec = cluster_at(i as int, n as int, a0, ef, lf);
            proof {
                assert(c@.map_values(|u: usize| u as int) == cspec);
            }
            if c.len() > 1 {
                // Mark every member assigned, then emit the cluster.
                let mut m: usize = 0;
                while m < c.len()
                    invariant
                        assigned@.len() == n,
                        c@.len() >= 1,
                        m <= c@.len(),
                        forall|x: int| 0 <= x < c@.len() ==> #[trigger] c@[x] < n,
                        c@.map_values(|u: usize| u as int) == cspec,
                        forall|x: int| 0 <= x < n ==> #[trigger] assigned@[x] == a0.union(
                            cspec.subrange(0, m as int).to_set(),
                        ).contains(x),
                    decreases c.len() - m,
                {
                    assigned.set(c[m], true);
                    proof {
                        let pre = cspec.subrange(0, m as int);
                        let post = cspec.subrange(0, m + 1);
                        assert(post =~= pre.push(cspec[m as int]));
                        assert forall|x: int| #[trigger] post.contains(x) implies pre.contains(x)
                            || x == cspec[m as int] by {
                            let w = choose|w: int| 0 <= w < post.len() && post[w] == x;
                            if w < pre.len() {
                                assert(pre[w] == x);
                            }
                        }
                        assert forall|x: int| pre.contains(x) implies #[trigger] post.contains(
                            x,
                        ) by {
                            let w = choose|w: int| 0 <= w < pre.len() && pre[w] == x;
                            assert(post[w] == x);
                        }
                        assert(post.contains(cspec[m as int])) by {
                            assert(post[m as int] == cspec[m as int]);
                        }
                        assert forall|x: int| 0 <= x < n implies #[trigger] assigned@[x]
                            == a0.union(post.to_set()).contains(x) by {
                            assert(post.to_set().contains(x) == post.contains(x));
                            assert(pre.to_set().contains(x) == pre.contains(x));
                        }
                    }
                    m = m + 1;
                }
                proof {
                    assert(cspec.subrange(0, cspec.len() as int) =~= cspec);
                    aset = a0.union(cspec.to_set());
                }
                r.push(c);
                proof {
                    assert(clusters_view(r@) =~= clusters_view(r@.drop_last()).push(cspec));
                    assert(clusters_from(i as int, n as int, a0, ef, lf) == seq![cspec]
                        + clusters_from(i + 1, n as int, aset, ef, lf));
                    assert(full == clusters_view(r@) + clusters_from(i + 1, n as int, aset, ef, lf));
                }
            } else {
                assigned.set(i, true);
                proof {
                    aset = a0.insert(i as int);
                    assert(cspec.len() == 1);
                    assert(clusters_from(i as int, n as int, a0, ef, lf) == clusters_from(
                        i + 1,
                        n as int,
                        aset,
                        ef,
                        lf,
                    ));
                }
            }
        } else {
            proof {
                assert(aset.contains(i as int) || !ef(i as int));
                assert(clusters_from(i as int, n as int, aset, ef, lf) == clusters_from(
                    i + 1,
                    n as int,
                    aset,
                    ef,
                    lf,
                ));
            }
        }
        i = i + 1;
    }
    proof {
        assert(clusters_from(n as int, n as int, aset, ef, lf) == Seq::<Seq<int>>::empty());
        assert(full =~= clusters_view(r@));
    }
    r
}

/// Whether `x` stands in cluster `k` of `cs`.
pub open spec fn in_cluster(cs: Seq<Seq<int>>, k: int, x: int) -> bool {
    0 <= k < cs.len() && cs[k].contains(x)
}

/// Whether `x` stands in some cluster of `cs`.
pub open spec fn appears(cs: Seq<Seq<int>>, x: int) -> bool {
    exists|k: int| in_cluster(cs, k, x)
}

/// Whether `x` and `y` stand in one cluster of `cs`.
pub open spec fn together(cs: Seq<Seq<int>>, x: int, y: int) -> bool {
    exists|k: int| in_cluster(cs, k, x) && in_cluster(cs, k, y)
}

/// The link relation is an equivalence between eligible positions below
/// `n`: reflexive there, symmetric, transitive, and only between eligible
/// positions.
pub open spec fn equiv_on(n: int, elig: spec_fn(int) -> bool, linked: spec_fn(int, int) -> bool) -> bool {
    &&& (forall|a: int| 0 <= a < n && elig(a) ==> #[trigger] linked(a, a))
    &&& (forall|a: int, b: int| 0 <= a < n && 0 <= b < n && #[trigger] linked(a, b) ==> linked(
        b,
        a,
    ))
    &&& (forall|a: int, b: int, c: int|
        0 <= a < n && 0 <= b < n && 0 <= c < n && #[trigger] linked(a, b) && #[trigger] linked(
            b,
            c,
        ) ==> linked(a, c))
    &&& (forall|a: int, b: int| 0 <= a < n && 0 <= b < n && #[trigger] linked(a, b) ==> elig(a)
        && elig(b))
}

/// Over an equivalence link, two linked unassigned positions always end
/// up in one cluster: either the earlier of them opens a cluster that
/// pulls the other in, or an earlier head linked to both pulls in both,
/// or neither is touched and the tail scan decides.
proof fn lemma_linked_end_up_together(
    i: int,
    n: int,
    assigned: Set<int>,
    elig: spec_fn(int) -> bool,
    linked: spec_fn(int, int) -> bool,
    x: int,
    y: int,
)
    requires
        0 <= i <= n,
        equiv_on(n, elig, linked),
        i <= x < y < n,
        linked(x, y),
        !assigned.contains(x),
        !assigned.contains(y),
    ensures
        together(clusters_from(i, n, assigned, elig, linked), x, y),
    decreases n - i,
{
    let cs = clusters_from(i, n, assigned, elig, linked);
    lemma_picked_props(i, i + 1, n, assigned, elig, linked);
    assert(elig(x) && elig(y));
    if assigned.contains(i) || !elig(i) {
        lemma_linked_end_up_together(i + 1, n, assigned, elig, linked, x, y);
    } else {
        let c = cluster_at(i, n, assigned, elig, linked);
        let p = picked(i, i + 1, n, assigned, elig, linked);
        if i == x {
            assert(p.contains(y));
            let w = choose|w: int| 0 <= w < p.len() && p[w] == y;
            assert(c[w + 1] == y);
            assert(c[0] == x);
            assert(c.len() > 1);
            assert(in_cluster(cs, 0, x) && in_cluster(cs, 0, y));
        } else if linked(i, x) {
            assert(linked(i, y));
            assert(p.contains(x));
            assert(p.contains(y));
            let wx = choose|w: int| 0 <= w < p.len() && p[w] == x;
            let wy = choose|w: int| 0 <= w < p.len() && p[w] == y;
            assert(c[wx + 1] == x && c[wy + 1] == y);
            assert(c.len() > 1);
            assert(in_cluster(cs, 0, x) && in_cluster(cs, 0, y));
        } else {
            assert(!linked(i, y)) by {
                if linked(i, y) {
                    assert(linked(y, x));
                    assert(linked(i, x));
                }
            }
            assert(!c.contains(x)) by {
                if c.contains(x) {
                    let w = choose|w: int| 0 <= w < c.len() && c[w] == x;
                    assert(w > 0);
                    assert(p[w - 1] == x);
                }
            }
            assert(!c.contains(y)) by {
                if c.contains(y) {
                    let w = choose|w: int| 0 <= w < c.len() && c[w] == y;
                    assert(w > 0);
                    assert(p[w - 1] == y);
                }
            }
            if c.len() > 1 {
                let a2 = assigned.union(c.to_set());
                assert(!a2.contains(x) && !a2.contains(y));
                lemma_linked_end_up_together(i + 1, n, a2, elig, linked, x, y);
                let rest = clusters_from(i + 1, n, a2, elig, linked);
                let k = choose|k: int| in_cluster(rest, k, x) && in_cluster(rest, k, y);
                assert(cs == seq![c] + rest);
                assert(cs[k + 1] == rest[k]);
                assert(in_cluster(cs, k + 1, x) && in_cluster(cs, k + 1, y));
            } else {
                let a2 = assigned.insert(i);
                assert(!a2.contains(x) && !a2.contains(y));
                lemma_linked_end_up_together(i + 1, n, a2, elig, linked, x, y);
            }
        }
    }
}

/// Over an equivalence link, the emitted clusters respect the link: two
/// distinct positions stand in one cluster exactly when they are linked,
/// and a position stands in some cluster exactly when it is linked to
/// another position.  This is the whole scan, so nothing is assigned yet.
pub proof fn lemma_equiv_partition(
    n: int,
    elig: spec_fn(int) -> bool,
    linked: spec_fn(int, int) -> bool,
)
    requires
        0 <= n,
        equiv_on(n, elig, linked),
    ensures
        forall|x: int, y: int|
            0 <= x < n && 0 <= y < n && x != y ==> (#[trigger] together(
                link_clusters_spec(n, elig, linked),
                x,
                y,
            ) <==> linked(x, y)),
        forall|x: int|
            0 <= x < n ==> (#[trigger] appears(link_clusters_spec(n, elig, linked), x) <==> exists|
                y: int,
            | 0 <= y < n && y != x && #[trigger] linked(x, y)),
{
    let cs = link_clusters_spec(n, elig, linked);
    lemma_clusters_props(0, n, Set::empty(), elig, linked);
    assert forall|x: int, y: int|
        0 <= x < n && 0 <= y < n && x != y && linked(x, y) implies #[trigger] together(
        cs,
        x,
        y,
    ) by {
        if x < y {
            lemma_linked_end_up_together(0, n, Set::empty(), elig, linked, x, y);
        } else {
            assert(linked(y, x));
            lemma_linked_end_up_together(0, n, Set::empty(), elig, linked, y, x);
            let k = choose|k: int| in_cluster(cs, k, y) && in_cluster(cs, k, x);
            assert(in_cluster(cs, k, x) && in_cluster(cs, k, y));
        }
    }
    assert forall|x: int, y: int|
        0 <= x < n && 0 <= y < n && x != y && #[trigger] together(cs, x, y) implies linked(
        x,
        y,
    ) by {
        let k = choose|k: int| in_cluster(cs, k, x) && in_cluster(cs, k, y);
        let c = cs[k];
        let wx = choose|w: int| 0 <= w < c.len() && c[w] == x;
        let wy = choose|w: int| 0 <= w < c.len() && c[w] == y;
        assert(wx == 0 || linked(c[0], x));
        assert(wy == 0 || linked(c[0], y));
        assert(elig(c[0]));
        assert(linked(c[0], c[0]));
        assert(linked(c[0], x) || wx == 0);
        if wx == 0 {
            assert(linked(x, y)) by {
                assert(x == c[0]);
                assert(linked(c[0], y));
            }
        } else if wy == 0 {
            assert(y == c[0]);
            assert(linked(y, x));
        } else {
            assert(linked(c[0], x) && linked(c[0], y));
            assert(linked(x, c[0]));
        }
    }
    assert forall|x: int| 0 <= x < n && #[trigger] appears(cs, x) implies exists|y: int|
        0 <= y < n && y != x && #[trigger] linked(x, y) by {
        let k = choose|k: int| in_cluster(cs, k, x);
        let c = cs[k];
        let wx = choose|w: int| 0 <= w < c.len() && c[w] == x;
        let other: int = if wx == 0 {
            c[1]
        } else {
            c[0]
        };
        assert(c.contains(other));
        assert(0 <= other < n);
        assert(other != x);
        assert(linked(c[0], c[1]));
        assert(together(cs, x, other)) by {
            assert(in_cluster(cs, k, x) && in_cluster(cs, k, other));
        }
        assert(linked(x, other));
    }
    assert forall|x: int, y: int|
        0 <= x < n && 0 <= y < n && y != x && #[trigger] linked(x, y) implies #[trigger] appears(
        cs,
        x,
    ) by {
        assert(together(cs, x, y));
        let k = choose|k: int| in_cluster(cs, k, x) && in_cluster(cs, k, y);
        assert(in_cluster(cs, k, x));
    }
}

/// Eligibility for exact grouping: the record's digest was computed.
pub open spec fn digest_elig(digests: Seq<Option<Vec<u8>>>) -> spec_fn(int) -> bool {
    |k: int| digests[k] is Some
}

/// The exact-duplicate link: both digests were computed and agree.
pub open spec fn digest_linked(digests: Seq<Option<Vec<u8>>>) -> spec_fn(int, int) -> bool {
    |a: int, b: int| digests[a] is Some && digests[b] is Some && digests[a]->0@ == digests[b]->0@
}

/// The clusters of records with equal digests, heads in index order.
pub open spec fn exact_clusters(digests: Seq<Option<Vec<u8>>>) -> Seq<Seq<int>> {
    link_clusters_spec(digests.len() as int, digest_elig(digests), digest_linked(digests))
}

/// What exact grouping returns: one group per cluster of at least two
/// records with equal digests, numbered in order, carrying the members in
/// index order, the shared digest, and the recommended original.
pub open spec fn exact_groups_post(
    files: Seq<FileInfo>,
    digests: Seq<Option<Vec<u8>>>,
    r: Seq<DuplicateGroup>,
) -> bool {
    let cs = exact_clusters(digests);
    &&& r.len() == cs.len()
    &&& forall|k: int|
        0 <= k < r.len() ==> {
            let g = #[trigger] r[k];
            let c = cs[k];
            &&& g.group_id == k
            &&& g.files@.len() == c.len()
            &&& g.files@.len() >= 2
            &&& (forall|m: int| 0 <= m < c.len() ==> g.files@[m] == files[#[trigger] c[m]])
            &&& g.exact_hash matches Some(h) && h@ == digests[c[0]]->0@
            &&& g.perceptual_hash is None
            &&& is_selected_original(g.files@, g.recommended_original as int)
        }
}

/// Clusters never share a member: membership is exclusive per scan.
pub proof fn lemma_clusters_disjoint(
    i: int,
    n: int,
    assigned: Set<int>,
    elig: spec_fn(int) -> bool,
    linked: spec_fn(int, int) -> bool,
)
    requires
        i <= n,
    ensures
        ({
            let cs = clusters_from(i, n, assigned, elig, linked);
            forall|k1: int, k2: int, x: int|
                0 <= k1 < k2 < cs.len() && #[trigger] cs[k1].contains(x) ==> !(
                #[trigger] cs[k2].contains(x))
        }),
    decreases n - i,
{
    let cs = clusters_from(i, n, assigned, elig, linked);
    if i < n {
        if assigned.contains(i) || !elig(i) {
            lemma_clusters_disjoint(i + 1, n, assigned, elig, linked);
            let rest = clusters_from(i + 1, n, assigned, elig, linked);
            assert forall|k1: int, k2: int, x: int|
                0 <= k1 < k2 < cs.len() && #[trigger] cs[k1].contains(x) implies !(
            #[trigger] cs[k2].contains(x)) by {
                assert(rest[k1].contains(x));
                assert(!rest[k2].contains(x));
            }
        } else {
            let c = cluster_at(i, n, assigned, elig, linked);
            if c.len() > 1 {
                let a2 = assigned.union(c.to_set());
                let rest = clusters_from(i + 1, n, a2, elig, linked);
                lemma_clusters_disjoint(i + 1, n, a2, elig, linked);
                lemma_clusters_props(i + 1, n, a2, elig, linked);
                assert(cs == seq![c] + rest);
                assert forall|k1: int, k2: int, x: int|
                    0 <= k1 < k2 < cs.len() && #[trigger] cs[k1].contains(x) implies !(
                #[trigger] cs[k2].contains(x)) by {
                    assert(cs[k2] == rest[k2 - 1]);
                    if k1 == 0 {
                        assert(cs[k1] == c);
                        assert(c.to_set().contains(x));
                        assert(a2.contains(x));
                        if rest[k2 - 1].contains(x) {
                            let w = choose|w: int|
                                0 <= w < rest[k2 - 1].len() && #[trigger] rest[k2 - 1][w] == x;
                            assert(!a2.contains(rest[k2 - 1][w]));
                            assert(false);
                        }
                    } else {
                        assert(cs[k1] == rest[k1 - 1]);
                    }
                }
            } else {
                lemma_clusters_disjoint(i + 1, n, assigned.insert(i), elig, linked);
                let rest = clusters_from(i + 1, n, assigned.insert(i), elig, linked);
                assert forall|k1: int, k2: int, x: int|
                    0 <= k1 < k2 < cs.len() && #[trigger] cs[k1].contains(x) implies !(
                #[trigger] cs[k2].contains(x)) by {
                    assert(rest[k1].contains(x));
                    assert(!rest[k2].contains(x));
                }
            }
        }
    }
}

/// Membership in exact groups is determined by content alone: two
/// records cluster together exactly when both digests were computed and
/// agree, and a record clusters at all exactly when some other record
/// carries its digest.  Group numbers depend on the scan order; the
/// partition itself does not.
pub proof fn lemma_exact_grouping_membership(digests: Seq<Option<Vec<u8>>>)
    ensures
        forall|x: int, y: int|
            0 <= x < digests.len() && 0 <= y < digests.len() && x != y ==> (#[trigger] together(
                exact_clusters(digests),
                x,
                y,
            ) <==> (digests[x] is Some && digests[y] is Some && digests[x]->0@
                == digests[y]->0@)),
        forall|x: int|
            0 <= x < digests.len() ==> (#[trigger] appears(exact_clusters(digests), x) <==> (
            digests[x] is Some && exists|y: int|
                0 <= y < digests.len() && y != x && digests[y] is Some && (#[trigger] digests[y])->0@
                    == digests[x]->0@)),
        forall|x: int, k1: int, k2: int|
            #[trigger] in_cluster(exact_clusters(digests), k1, x) && #[trigger] in_cluster(
                exact_clusters(digests),
                k2,
                x,
            ) ==> k1 == k2,
{
    let n = digests.len() as int;
    let e = digest_elig(digests);
    let l = digest_linked(digests);
    lemma_clusters_disjoint(0, n, Set::empty(), e, l);
    assert forall|x: int, k1: int, k2: int|
        #[trigger] in_cluster(exact_clusters(digests), k1, x) && #[trigger] in_cluster(
            exact_clusters(digests),
            k2,
            x,
        ) implies k1 == k2 by {
        let cs = exact_clusters(digests);
        if k1 < k2 {
            assert(cs[k1].contains(x) && cs[k2].contains(x));
            assert(false);
        } else if k2 < k1 {
            assert(cs[k2].contains(x) && cs[k1].contains(x));
            assert(false);
        }
    }
    assert(equiv_on(n, e, l)) by {
        assert forall|a: int| 0 <= a < n && e(a) implies #[trigger] l(a, a) by {}
        assert forall|a: int, b: int| 0 <= a < n && 0 <= b < n && #[trigger] l(a, b) implies l(
            b,
            a,
        ) by {}
        assert forall|a: int, b: int, c: int|
            0 <= a < n && 0 <= b < n && 0 <= c < n && #[trigger] l(a, b) && #[trigger] l(
                b,
                c,
            ) implies l(a, c) by {}
        assert forall|a: int, b: int| 0 <= a < n && 0 <= b < n && #[trigger] l(a, b) implies e(a)
            && e(b) by {}
    }
    lemma_equiv_partition(n, e, l);
    assert forall|x: int|
        0 <= x < n implies (#[trigger] appears(exact_clusters(digests), x) <==> (digests[x] is Some
        && exists|y: int|
        0 <= y < n && y != x && digests[y] is Some && (#[trigger] digests[y])->0@
            == digests[x]->0@)) by {
        assert(appears(exact_clusters(digests), x) <==> exists|y: int|
            0 <= y < n && y != x && #[trigger] l(x, y));
        if exists|y: int| 0 <= y < n && y != x && #[trigger] l(x, y) {
            let y = choose|y: int| 0 <= y < n && y != x && #[trigger] l(x, y);
            assert(digests[x] is Some && digests[y] is Some && digests[y]->0@ == digests[x]->0@);
        }
        if digests[x] is Some && exists|y: int|
            0 <= y < n && y != x && digests[y] is Some && (#[trigger] digests[y])->0@
                == digests[x]->0@ {
            let y = choose|y: int|
                0 <= y < n && y != x && digests[y] is Some && (#[trigger] digests[y])->0@
                    == digests[x]->0@;
            assert(l(x, y));
            assert(0 <= y < n && y != x && l(x, y));
        }
    }
}

/// Eligibility for perceptual grouping: the record is an image and its
/// fingerprint was computed.  Records without a fingerprint never take
/// part and never match anything.
pub open spec fn fp_elig(files: Seq<FileInfo>, fps: Seq<Option<u64>>) -> spec_fn(int) -> bool {
    |k: int| files[k].file_type is Image && fps[k] is Some
}

/// The near-duplicate link: both fingerprints were computed and lie within
/// `threshold` bits of each other.
pub open spec fn fp_linked(fps: Seq<Option<u64>>, threshold: u32) -> spec_fn(int, int) -> bool {
    |a: int, b: int| fps[a] is Some && fps[b] is Some
        && popcount((fps[a]->0 ^ fps[b]->0) as nat) <= threshold
}

/// The greedy single-link clusters of similar images, heads in index
/// order.  A record joins the first open cluster whose head it resembles,
/// so the outcome depends on the input order by design.
pub open spec fn perceptual_clusters(
    files: Seq<FileInfo>,
    fps: Seq<Option<u64>>,
    threshold: u32,
) -> Seq<Seq<int>> {
    link_clusters_spec(files.len() as int, fp_elig(files, fps), fp_linked(fps, threshold))
}

/// What perceptual grouping returns: one group per greedy cluster of at
/// least two similar images, numbered in order, carrying the members in
/// index order, the head's fingerprint, and the recommended original.
pub open spec fn perceptual_groups_post(
    files: Seq<FileInfo>,
    fps: Seq<Option<u64>>,
    threshold: u32,
    r: Seq<DuplicateGroup>,
) -> bool {
    let cs = perceptual_clusters(files, fps, threshold);
    &&& r.len() == cs.len()
    &&& forall|k: int|
        0 <= k < r.len() ==> {
            let g = #[trigger] r[k];
            let c = cs[k];
            &&& g.group_id == k
            &&& g.files@.len() == c.len()
            &&& g.files@.len() >= 2
            &&& (forall|m: int| 0 <= m < c.len() ==> g.files@[m] == files[#[trigger] c[m]])
            &&& g.perceptual_hash matches Some(h) && h == fps[c[0]]->0
            &&& g.exact_hash is None
            &&& is_selected_original(g.files@, g.recommended_original as int)
        }
}

/// Greedy single-link clustering is order-sensitive by design.  With
/// fingerprints where `a` resembles `b` and `b` resembles `c` but `a`
/// does not resemble `c`: scanning the images in the order a, b, c pairs
/// only `a` with `b` and leaves `c` out, since `c` is compared against
/// the head `a`; scanning b, a, c instead links all three into one
/// cluster.  The same records in a different order thus cluster
/// differently, while a fixed order always reproduces the same clusters.
pub proof fn lemma_clustering_order_sensitivity(
    files: Seq<FileInfo>,
    fa: u64,
    fb: u64,
    fc: u64,
    t: u32,
)
    requires
        files.len() == 3,
        forall|k: int| 0 <= k < 3 ==> (#[trigger] files[k]).file_type is Image,
        popcount((fa ^ fb) as nat) <= t,
        popcount((fb ^ fc) as nat) <= t,
        popcount((fa ^ fc) as nat) > t,
    ensures
        perceptual_clusters(files, seq![Some(fa), Some(fb), Some(fc)], t) == seq![seq![0int, 1]],
        perceptual_clusters(files, seq![Some(fb), Some(fa), Some(fc)], t) == seq![
            seq![0int, 1, 2],
        ],
{
    crate::perceptual_hash::lemma_hamming_symmetry_and_bound(fa, fb);
    crate::perceptual_hash::lemma_hamming_symmetry_and_bound(fa, fc);
    let empty_set = Set::<int>::empty();
    // Scan order a, b, c: the head a takes b; c resembles neither head.
    let fps1 = seq![Some(fa), Some(fb), Some(fc)];
    let e1 = fp_elig(files, fps1);
    let l1 = fp_linked(fps1, t);
    assert(e1(0) && e1(1) && e1(2));
    assert(l1(0, 1) && !l1(0, 2));
    assert(picked(0, 1, 1, empty_set, e1, l1) == Seq::<int>::empty());
    assert(picked(0, 1, 2, empty_set, e1, l1) =~= seq![1int]);
    assert(picked(0, 1, 3, empty_set, e1, l1) =~= seq![1int]);
    let c1 = cluster_at(0, 3, empty_set, e1, l1);
    assert(c1 =~= seq![0int, 1]);
    let a1 = empty_set.union(c1.to_set());
    assert(a1.contains(1int)) by {
        assert(c1[1] == 1int);
    }
    assert(!a1.contains(2int)) by {
        assert(forall|w: int| 0 <= w < c1.len() ==> c1[w] != 2);
    }
    assert(picked(2, 3, 3, a1, e1, l1) == Seq::<int>::empty());
    assert(cluster_at(2, 3, a1, e1, l1) =~= seq![2int]);
    assert(clusters_from(3, 3, a1.insert(2), e1, l1) == Seq::<Seq<int>>::empty());
    assert(clusters_from(2, 3, a1, e1, l1) == Seq::<Seq<int>>::empty());
    assert(clusters_from(1, 3, a1, e1, l1) == Seq::<Seq<int>>::empty());
    assert(clusters_from(0, 3, empty_set, e1, l1) == seq![c1] + clusters_from(1, 3, a1, e1, l1));
    assert(perceptual_clusters(files, fps1, t) =~= seq![seq![0int, 1]]);
    // Scan order b, a, c: the head b takes both a and c.
    let fps2 = seq![Some(fb), Some(fa), Some(fc)];
    let e2 = fp_elig(files, fps2);
    let l2 = fp_linked(fps2, t);
    assert(e2(0) && e2(1) && e2(2));
    assert(l2(0, 1) && l2(0, 2));
    assert(picked(0, 1, 1, empty_set, e2, l2) == Seq::<int>::empty());
    assert(picked(0, 1, 2, empty_set, e2, l2) =~= seq![1int]);
    assert(picked(0, 1, 3, empty_set, e2, l2) =~= seq![1int, 2]);
    let c2 = cluster_at(0, 3, empty_set, e2, l2);
    assert(c2 =~= seq![0int, 1, 2]);
    let a2 = empty_set.union(c2.to_set());
    assert(a2.contains(1int)) by {
        assert(c2[1] == 1int);
    }
    assert(a2.contains(2int)) by {
        assert(c2[2] == 2int);
    }
    assert(clusters_from(3, 3, a2, e2, l2) == Seq::<Seq<int>>::empty());
    assert(clusters_from(2, 3, a2, e2, l2) == Seq::<Seq<int>>::empty());
    assert(clusters_from(1, 3, a2, e2, l2) == Seq::<Seq<int>>::empty());
    assert(clusters_from(0, 3, empty_set, e2, l2) == seq![c2] + clusters_from(1, 3, a2, e2, l2));
    assert(perceptual_clusters(files, fps2, t) =~= seq![seq![0int, 1, 2]]);
}

/// Groups duplicate files by their fingerprints: exact duplicates by
/// digest equality, near-duplicate images by fingerprint distance.
pub struct HashGrouper {
    /// Largest Hamming distance at which two image fingerprints still
    /// count as similar; lower is stricter.
    pub similarity_threshold: u32,
}

impl HashGrouper {
    /// A grouper with the given similarity threshold.
    pub fn new(similarity_threshold: u32) -> (r: Self)
        ensures
            r.similarity_threshold == similarity_threshold,
    {
        HashGrouper { similarity_threshold }
    }

    /// Stage one: groups the records whose exact digests agree.  Each
    /// record comes with its digest, or nothing where fingerprinting
    /// failed; failed records take no part.
    #[verifier::loop_isolation(false)]
    pub fn group_by_exact_hash(
        &self,
        files: &Vec<FileInfo>,
        digests: &Vec<Option<Vec<u8>>>,
    ) -> (r: Vec<DuplicateGroup>)
        requires
            files@.len() == digests@.len(),
        ensures
            exact_groups_post(files@, digests@, r@),
    {
        let n = files.len();
        let mut elig: Vec<bool> = Vec::new();
        for i in 0..n
            invariant
                elig@.len() == i,
                forall|k: int| 0 <= k < i ==> #[trigger] elig@[k] == (digests@[k] is Some),
        {
            elig.push(digests[i].is_some());
        }
        let mut linked: Vec<Vec<bool>> = Vec::new();
        for a in 0..n
            invariant
                linked@.len() == a,
                forall|x: int| 0 <= x < a ==> (#[trigger] linked@[x])@.len() == n,
                forall|x: int, y: int|
                    0 <= x < a && 0 <= y < n ==> (#[trigger] linked@[x]@[y]) == digest_linked(
                        digests@,
                    )(x, y),
        {
            let mut row: Vec<bool> = Vec::new();
            for b in 0..n
                invariant
                    row@.len() == b,
                    forall|y: int|
                        0 <= y < b ==> #[trigger] row@[y] == digest_linked(digests@)(a as int, y),
            {
                let v = match (&digests[a], &digests[b]) {
                    (Some(da), Some(db)) => digests_equal(da, db),
                    _ => false,
                };
                row.push(v);
            }
            linked.push(row);
        }
        let cs = link_clusters(&elig, &linked);
        let ghost spec_cs = exact_clusters(digests@);
        proof {
            lemma_clusters_congruence(
                0,
                n as int,
                Set::empty(),
                elig_of(elig@),
                linked_of(linked@),
                digest_elig(digests@),
                digest_linked(digests@),
            );
            lemma_clusters_props(
                0,
                n as int,
                Set::empty(),
                digest_elig(digests@),
                digest_linked(digests@),
            );
            assert(clusters_view(cs@) == spec_cs);
        }
        let mut r: Vec<DuplicateGroup> = Vec::new();
        let g_total = cs.len();
        for k in 0..g_total
            invariant
                r@.len() == k,
                forall|q: int|
                    0 <= q < k ==> {
                        let g = #[trigger] r@[q];
                        let c = spec_cs[q];
                        &&& g.group_id == q
                        &&& g.files@.len() == c.len()
                        &&& g.files@.len() >= 2
                        &&& (forall|m: int|
                            0 <= m < c.len() ==> g.files@[m] == files@[#[trigger] c[m]])
                        &&& g.exact_hash matches Some(h) && h@ == digests@[c[0]]->0@
                        &&& g.perceptual_hash is None
                        &&& is_selected_original(g.files@, g.recommended_original as int)
                    },
        {
            let cluster = &cs[k];
            let ghost c = spec_cs[k as int];
            proof {
                assert(c == cluster@.map_values(|u: usize| u as int));
                assert(c.len() >= 2);
                assert(forall|m: int| 0 <= m < c.len() ==> 0 <= #[trigger] c[m] < n);
                assert(digest_elig(digests@)(c[0]));
                assert(digests@[c[0]] is Some);
            }
            let clen = cluster.len();
            let mut gfiles: Vec<FileInfo> = Vec::new();
            for t in 0..clen
                invariant
                    gfiles@.len() == t,
                    forall|x: int| 0 <= x < t ==> #[trigger] gfiles@[x] == files@[c[x]],
            {
                proof {
                    assert(cluster@[t as int] as int == c[t as int]);
                    assert(0 <= c[t as int] < n);
                }
                gfiles.push(files[cluster[t]].clone());
            }
            let head = cluster[0];
            let hd: Vec<u8> = match &digests[head] {
                Some(d) => crate::exact_hash::copy_bytes(d),
                None => unreached(),
            };
            let g = DuplicateGroup::new(k, gfiles).with_exact_hash(hd);
            r.push(g);
        }
        r
    }

    /// Stage two: greedy single-link clustering of image records by
    /// fingerprint distance.  Each record comes with its fingerprint, or
    /// nothing where it is not an image or decoding failed; such records
    /// take no part and match nothing.  A record joins the first open
    /// cluster whose head it resembles, so the outcome depends on the
    /// input order; that order dependence is deliberate and reproducible.
    #[verifier::loop_isolation(false)]
    pub fn find_similar_images(
        &self,
        files: &Vec<FileInfo>,
        fingerprints: &Vec<Option<u64>>,
    ) -> (r: Vec<DuplicateGroup>)
        requires
            files@.len() == fingerprints@.len(),
        ensures
            perceptual_groups_post(files@, fingerprints@, self.similarity_threshold, r@),
    {
        let n = files.len();
        let mut elig: Vec<bool> = Vec::new();
        for i in 0..n
            invariant
                elig@.len() == i,
                forall|k: int|
                    0 <= k < i ==> #[trigger] elig@[k] == (files@[k].file_type is Image
                        && fingerprints@[k] is Some),
        {
            elig.push(files[i].is_image() && fingerprints[i].is_some());
        }
        let mut linked: Vec<Vec<bool>> = Vec::new();
        for a in 0..n
            invariant
                linked@.len() == a,
                forall|x: int| 0 <= x < a ==> (#[trigger] linked@[x])@.len() == n,
                forall|x: int, y: int|
                    0 <= x < a && 0 <= y < n ==> (#[trigger] linked@[x]@[y]) == fp_linked(
                        fingerprints@,
                        self.similarity_threshold,
                    )(x, y),
        {
            let mut row: Vec<bool> = Vec::new();
            for b in 0..n
                invariant
                    row@.len() == b,
                    forall|y: int|
                        0 <= y < b ==> #[trigger] row@[y] == fp_linked(
                            fingerprints@,
                            self.similarity_threshold,
                        )(a as int, y),
            {
                let v = match (&fingerprints[a], &fingerprints[b]) {
                    (Some(fa), Some(fb)) => PerceptualHasher::are_similar(
                        *fa,
                        *fb,
                        self.similarity_threshold,
                    ),
                    _ => false,
                };
                row.push(v);
            }
            linked.push(row);
        }
        let cs = link_clusters(&elig, &linked);
        let ghost spec_cs = perceptual_clusters(files@, fingerprints@, self.similarity_threshold);
        proof {
            lemma_clusters_congruence(
                0,
                n as int,
                Set::empty(),
                elig_of(elig@),
                linked_of(linked@),
                fp_elig(files@, fingerprints@),
                fp_linked(fingerprints@, self.similarity_threshold),
            );
            lemma_clusters_props(
                0,
                n as int,
                Set::empty(),
                fp_elig(files@, fingerprints@),
                fp_linked(fingerprints@, self.similarity_threshold),
            );
            assert(clusters_view(cs@) == spec_cs);
        }
        let mut r: Vec<DuplicateGroup> = Vec::new();
        let g_total = cs.len();
        for k in 0..g_total
            invariant
                r@.len() == k,
                forall|q: int|
                    0 <= q < k ==> {
                        let g = #[trigger] r@[q];
                        let c = spec_cs[q];
                        &&& g.group_id == q
                        &&& g.files@.len() == c.len()
                        &&& g.files@.len() >= 2
                        &&& (forall|m: int|
                            0 <= m < c.len() ==> g.files@[m] == files@[#[trigger] c[m]])
                        &&& g.perceptual_hash matches Some(h) && h == fingerprints@[c[0]]->0
                        &&& g.exact_hash is None
                        &&& is_selected_original(g.files@, g.recommended_original as int)
                    },
        {
            let cluster = &cs[k];
            let ghost c = spec_cs[k as int];
            proof {
                assert(c == cluster@.map_values(|u: usize| u as int));
                assert(c.len() >= 2);
                assert(forall|m: int| 0 <= m < c.len() ==> 0 <= #[trigger] c[m] < n);
                assert(fp_elig(files@, fingerprints@)(c[0]));
                assert(fingerprints@[c[0]] is Some);
            }
            let clen = cluster.len();
            let mut gfiles: Vec<FileInfo> = Vec::new();
            for t in 0..clen
                invariant
                    gfiles@.len() == t,
                    forall|x: int| 0 <= x < t ==> #[trigger] gfiles@[x] == files@[c[x]],
            {
                proof {
                    assert(cluster@[t as int] as int == c[t as int]);
                    assert(0 <= c[t as int] < n);
                }
                gfiles.push(files[cluster[t]].clone());
            }
            let head = cluster[0];
            let fp: u64 = match &fingerprints[head] {
                Some(f) => *f,
                None => unreached(),
            };
            let g = DuplicateGroup::new(k, gfiles).with_perceptual_hash(fp);
            r.push(g);
        }
        r
    }

    /// Two-stage duplicate detection.  As the first stage alone already
    /// yields the exact-duplicate groups, this runs it and returns its
    /// result; perceptual clustering stands apart as its own stage.
    pub fn find_duplicates(
        &self,
        files: &Vec<FileInfo>,
        digests: &Vec<Option<Vec<u8>>>,
    ) -> (r: Vec<DuplicateGroup>)
        requires
            files@.len() == digests@.len(),
        ensures
            exact_groups_post(files@, digests@, r@),
    {
        self.group_by_exact_hash(files, digests)
    }
}

} // verus!
