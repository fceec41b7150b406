//! k-means over fixed-point colour vectors.
//!
//! A point is an array of `D` unsigned 16-bit channels. Distances are squared
//! Euclidean distances, never square-rooted: only their order matters here.
//! Seeding is deterministic (farthest-point), each iteration assigns every
//! point to its nearest centroid and moves each centroid to the mean of its
//! points, and the iteration count is fixed.
use vstd::prelude::*;

use crate::error::TransferError;

verus! {

/// The channels of a point, as integers.
pub open spec fn vec_of<const D: usize>(a: [u16; D]) -> Seq<int> {
    Seq::new(D as nat, |d: int| a@[d] as int)
}

/// The channels of each point of a sequence, as integers.
pub open spec fn vecs_of<const D: usize>(s: Seq<[u16; D]>) -> Seq<Seq<int>> {
    Seq::new(s.len(), |i: int| vec_of(s[i]))
}

/// Labels as integers.
pub open spec fn labels_of(l: Seq<usize>) -> Seq<int> {
    Seq::new(l.len(), |i: int| l[i] as int)
}

/// Sum of the squared channel differences over the first `n` channels.
pub open spec fn sq_dist_upto(a: Seq<int>, b: Seq<int>, n: int) -> int
    decreases n,
{
    if n <= 0 {
        0
    } else {
        sq_dist_upto(a, b, n - 1) + (a[n - 1] - b[n - 1]) * (a[n - 1] - b[n - 1])
    }
}

/// Squared Euclidean distance.
pub open spec fn sq_dist(a: Seq<int>, b: Seq<int>) -> int {
    sq_dist_upto(a, b, a.len() as int)
}

/// Index of the centroid nearest to `p` among the first `m`; on a tie the
/// lower index is kept.
pub open spec fn nearest_upto(p: Seq<int>, cs: Seq<Seq<int>>, m: int) -> int
    decreases m,
{
    if m <= 1 {
        0
    } else {
        let b = nearest_upto(p, cs, m - 1);
        if sq_dist(p, cs[m - 1]) < sq_dist(p, cs[b]) {
            m - 1
        } else {
            b
        }
    }
}

/// Index of the centroid nearest to `p`, the lowest one on a tie.
pub open spec fn nearest(p: Seq<int>, cs: Seq<Seq<int>>) -> int {
    nearest_upto(p, cs, cs.len() as int)
}

/// Label of every point: the index of its nearest centroid.
pub open spec fn assignment(pts: Seq<Seq<int>>, cs: Seq<Seq<int>>) -> Seq<int> {
    Seq::new(pts.len(), |i: int| nearest(pts[i], cs))
}

/// Distance from `p` to the nearest of the first `m` centroids.
pub open spec fn min_dist_upto(p: Seq<int>, cs: Seq<Seq<int>>, m: int) -> int
    decreases m,
{
    if m <= 1 {
        sq_dist(p, cs[0])
    } else {
        let r = min_dist_upto(p, cs, m - 1);
        let d = sq_dist(p, cs[m - 1]);
        if d < r {
            d
        } else {
            r
        }
    }
}

/// Distance from `p` to the nearest centroid.
pub open spec fn min_dist(p: Seq<int>, cs: Seq<Seq<int>>) -> int {
    min_dist_upto(p, cs, cs.len() as int)
}

/// Index, among the first `n` points, of the one farthest from its nearest
/// seed; on a tie the later point wins.
pub open spec fn farthest_upto(pts: Seq<Seq<int>>, seeds: Seq<Seq<int>>, n: int) -> int
    decreases n,
{
    if n <= 1 {
        0
    } else {
        let b = farthest_upto(pts, seeds, n - 1);
        if min_dist(pts[n - 1], seeds) >= min_dist(pts[b], seeds) {
            n - 1
        } else {
            b
        }
    }
}

/// Index of the point farthest from its nearest seed, the last one on a tie.
pub open spec fn farthest(pts: Seq<Seq<int>>, seeds: Seq<Seq<int>>) -> int {
    farthest_upto(pts, seeds, pts.len() as int)
}

/// The first `i` seeds of farthest-point seeding: the middle point, then
/// repeatedly the point farthest from the seeds chosen so far.
pub open spec fn seeds(pts: Seq<Seq<int>>, i: nat) -> Seq<Seq<int>>
    decreases i,
{
    if i <= 1 {
        seq![pts[pts.len() as int / 2]]
    } else {
        let s = seeds(pts, (i - 1) as nat);
        s.push(pts[farthest(pts, s)])
    }
}

/// The `k` initial centroids: the seeds in reverse order of choice.
pub open spec fn initial_centroids(pts: Seq<Seq<int>>, k: nat) -> Seq<Seq<int>> {
    let s = seeds(pts, k);
    Seq::new(k, |i: int| s[k - 1 - i])
}

/// Number of the first `n` labels that equal `c`.
pub open spec fn label_count(labels: Seq<int>, c: int, n: int) -> int
    decreases n,
{
    if n <= 0 {
        0
    } else {
        label_count(labels, c, n - 1) + if labels[n - 1] == c {
            1int
        } else {
            0int
        }
    }
}

/// Sum of channel `d` over the first `n` points whose label is `c`.
pub open spec fn label_sum(pts: Seq<Seq<int>>, labels: Seq<int>, c: int, d: int, n: int) -> int
    decreases n,
{
    if n <= 0 {
        0
    } else {
        label_sum(pts, labels, c, d, n - 1) + if labels[n - 1] == c {
            pts[n - 1][d]
        } else {
            0int
        }
    }
}

/// Channel `d` of the mean of the points labelled `c`, rounded down; an
/// empty cluster has the origin as its mean.
pub open spec fn cluster_mean(pts: Seq<Seq<int>>, labels: Seq<int>, c: int, d: int) -> int {
    let k = label_count(labels, c, pts.len() as int);
    if k == 0 {
        0
    } else {
        label_sum(pts, labels, c, d, pts.len() as int) / k
    }
}

/// The `k` centroids of `dim` channels that a labelling gives.
pub open spec fn recentred(pts: Seq<Seq<int>>, labels: Seq<int>, k: nat, dim: nat) -> Seq<
    Seq<int>,
> {
    Seq::new(k, |c: int| Seq::new(dim, |d: int| cluster_mean(pts, labels, c, d)))
}

/// The centroids after `t` iterations from `init`.
pub open spec fn centroids_after(
    pts: Seq<Seq<int>>,
    init: Seq<Seq<int>>,
    k: nat,
    dim: nat,
    t: nat,
) -> Seq<Seq<int>>
    decreases t,
{
    if t == 0 {
        init
    } else {
        let cs = centroids_after(pts, init, k, dim, (t - 1) as nat);
        recentred(pts, assignment(pts, cs), k, dim)
    }
}

/// Labels after `t` iterations: none before the first one.
pub open spec fn labels_after(
    pts: Seq<Seq<int>>,
    init: Seq<Seq<int>>,
    k: nat,
    dim: nat,
    t: nat,
) -> Seq<int> {
    if t == 0 {
        Seq::empty()
    } else {
        assignment(pts, centroids_after(pts, init, k, dim, (t - 1) as nat))
    }
}

/// Result of a k-means run: `K` means and one label per input point.
pub struct KMeans<const D: usize> {
    pub means: Vec<[u16; D]>,
    pub labels: Vec<usize>,
}

/// What deterministic k-means with `k` clusters and `iters` iterations
/// returns on the non-empty `pts`.
pub open spec fn k_means_result<const D: usize>(
    pts: Seq<[u16; D]>,
    k: nat,
    iters: nat,
    r: KMeans<D>,
) -> bool {
    let p = vecs_of(pts);
    let init = initial_centroids(p, k);
    &&& r.means@.len() == k
    &&& vecs_of(r.means@) == centroids_after(p, init, k, D as nat, iters)
    &&& labels_of(r.labels@) == labels_after(p, init, k, D as nat, iters)
}

/// Squared Euclidean distance between two points.
pub fn distance<const D: usize>(a: &[u16; D], b: &[u16; D]) -> (r: u128)
    ensures
        r == sq_dist(vec_of(*a), vec_of(*b)),
{
    let ghost va = vec_of(*a);
    let ghost vb = vec_of(*b);
    let mut acc: u128 = 0;
    for d in 0..D
        invariant
            va == vec_of(*a),
            vb == vec_of(*b),
            acc == sq_dist_upto(va, vb, d as int),
            acc <= d * 4294836225,
    {
        let x = a[d];
        let y = b[d];
        let diff: u128 = if x >= y {
            (x - y) as u128
        } else {
            (y - x) as u128
        };
        assert(diff * diff <= 4294836225) by (nonlinear_arith)
            requires
                diff <= 65535,
        ;
        assert(diff * diff == (va[d as int] - vb[d as int]) * (va[d as int] - vb[d as int]))
            by (nonlinear_arith)
            requires
                va[d as int] == x as int,
                vb[d as int] == y as int,
                diff == if x >= y {
                    x - y
                } else {
                    y - x
                },
        ;
        assert(acc + diff * diff <= (d + 1) * 4294836225) by (nonlinear_arith)
            requires
                acc <= d * 4294836225,
                diff * diff <= 4294836225,
        ;
        assert((d + 1) * 4294836225 < 0x1_0000_0000_0000_0000_0000_0000_0000_0000) by (nonlinear_arith)
            requires
                d < 0x1_0000_0000_0000_0000,
        ;
        acc = acc + diff * diff;
    }
    acc
}

/// Index of the centroid nearest to `p`, the lowest one on a tie.
pub fn nearest_centroid<const D: usize>(centroids: &Vec<[u16; D]>, p: &[u16; D]) -> (r: usize)
    requires
        centroids@.len() > 0,
    ensures
        r < centroids@.len(),
        r as int == nearest(vec_of(*p), vecs_of(centroids@)),
{
    let ghost cs = vecs_of(centroids@);
    let mut best: usize = 0;
    let mut best_d = distance(p, &centroids[0]);
    let mut i: usize = 1;
    while i < centroids.len()
        invariant
            cs == vecs_of(centroids@),
            1 <= i <= centroids@.len(),
            best < i,
            best as int == nearest_upto(vec_of(*p), cs, i as int),
            best_d == sq_dist(vec_of(*p), cs[best as int]),
        decreases centroids@.len() - i,
    {
        let d = distance(p, &centroids[i]);
        if d < best_d {
            best = i;
            best_d = d;
        }
        i = i + 1;
    }
    best
}

/// Distance from `p` to the nearest of `centroids`.
pub fn nearest_distance<const D: usize>(centroids: &Vec<[u16; D]>, p: &[u16; D]) -> (r: u128)
    requires
        centroids@.len() > 0,
    ensures
        r == min_dist(vec_of(*p), vecs_of(centroids@)),
{
    let ghost cs = vecs_of(centroids@);
    let mut best = distance(p, &centroids[0]);
    let mut i: usize = 1;
    while i < centroids.len()
        invariant
            cs == vecs_of(centroids@),
            1 <= i <= centroids@.len(),
            best == min_dist_upto(vec_of(*p), cs, i as int),
        decreases centroids@.len() - i,
    {
        let d = distance(p, &centroids[i]);
        if d < best {
            best = d;
        }
        i = i + 1;
    }
    best
}

/// Index of the point farthest from its nearest seed, the last one on a tie.
pub fn farthest_point<const D: usize>(points: &Vec<[u16; D]>, seeds: &Vec<[u16; D]>) -> (r: usize)
    requires
        points@.len() > 0,
        seeds@.len() > 0,
    ensures
        r < points@.len(),
        r as int == farthest(vecs_of(points@), vecs_of(seeds@)),
{
    let ghost pts = vecs_of(points@);
    let ghost ss = vecs_of(seeds@);
    let mut best: usize = 0;
    let mut best_d = nearest_distance(seeds, &points[0]);
    let mut i: usize = 1;
    while i < points.len()
        invariant
            pts == vecs_of(points@),
            ss == vecs_of(seeds@),
            seeds@.len() > 0,
            1 <= i <= points@.len(),
            best < i,
            best as int == farthest_upto(pts, ss, i as int),
            best_d == min_dist(pts[best as int], ss),
        decreases points@.len() - i,
    {
        let d = nearest_distance(seeds, &points[i]);
        if d >= best_d {
            best = i;
            best_d = d;
        }
        i = i + 1;
    }
    best
}

/// Farthest-point seeding: the middle point first, then each further seed the
/// point farthest from its nearest earlier seed; returned in reverse order of
/// choice.
pub fn k_means_init<const K: usize, const D: usize>(points: &Vec<[u16; D]>) -> (r: Vec<[u16; D]>)
    requires
        points@.len() > 0,
        K >= 1,
    ensures
        r@.len() == K,
        vecs_of(r@) == initial_centroids(vecs_of(points@), K as nat),
{
    let ghost pts = vecs_of(points@);
    let mut chosen: Vec<[u16; D]> = Vec::with_capacity(K);
    chosen.push(points[points.len() / 2]);
    assert(vecs_of(chosen@) =~= seeds(pts, 1));
    for i in 1..K
        invariant
            pts == vecs_of(points@),
            points@.len() > 0,
            chosen@.len() == i,
            vecs_of(chosen@) == seeds(pts, i as nat),
    {
        let j = farthest_point(points, &chosen);
        let ghost before = chosen@;
        chosen.push(points[j]);
        assert(vecs_of(chosen@) =~= vecs_of(before).push(pts[j as int]));
    }
    let ghost s = vecs_of(chosen@);
    let mut out: Vec<[u16; D]> = Vec::with_capacity(K);
    for j in 0..K
        invariant
            chosen@.len() == K,
            s == vecs_of(chosen@),
            out@.len() == j,
            forall|m: int| 0 <= m < j ==> #[trigger] vecs_of(out@)[m] == s[K - 1 - m],
    {
        let ghost before = out@;
        out.push(chosen[K - 1 - j]);
        assert forall|m: int| 0 <= m <= j implies #[trigger] vecs_of(out@)[m] == s[K - 1 - m] by {
            if m < j {
                assert(out@[m] == before[m]);
                assert(vecs_of(before)[m] == s[K - 1 - m]);
            } else {
                assert(out@[m] == chosen@[K - 1 - j]);
            }
        }
    }
    assert(vecs_of(out@) =~= initial_centroids(pts, K as nat));
    out
}

/// Labels every point with the index of its nearest centroid.
pub fn assign_labels<const D: usize>(points: &Vec<[u16; D]>, centroids: &Vec<[u16; D]>) -> (r: Vec<
    usize,
>)
    requires
        centroids@.len() > 0,
    ensures
        r@.len() == points@.len(),
        forall|i: int| 0 <= i < r@.len() ==> #[trigger] r@[i] < centroids@.len(),
        labels_of(r@) == assignment(vecs_of(points@), vecs_of(centroids@)),
{
    let mut out: Vec<usize> = Vec::with_capacity(points.len());
    for i in 0..points.len()
        invariant
            centroids@.len() > 0,
            out@.len() == i,
            forall|j: int| 0 <= j < i ==> #[trigger] out@[j] < centroids@.len(),
            forall|j: int|
                0 <= j < i ==> #[trigger] out@[j] as int == nearest(
                    vecs_of(points@)[j],
                    vecs_of(centroids@),
                ),
    {
        let l = nearest_centroid(centroids, &points[i]);
        out.push(l);
    }
    assert(labels_of(out@) =~= assignment(vecs_of(points@), vecs_of(centroids@)));
    out
}

/// Channel `d` of the mean of the points labelled `c`, rounded down; zero
/// for a cluster without points.
pub fn cluster_mean_at<const D: usize>(
    points: &Vec<[u16; D]>,
    labels: &Vec<usize>,
    c: usize,
    d: usize,
) -> (r: u16)
    requires
        labels@.len() == points@.len(),
        d < D,
    ensures
        r as int == cluster_mean(vecs_of(points@), labels_of(labels@), c as int, d as int),
{
    let ghost pts = vecs_of(points@);
    let ghost ls = labels_of(labels@);
    let mut count: u128 = 0;
    let mut sum: u128 = 0;
    for i in 0..points.len()
        invariant
            pts == vecs_of(points@),
            ls == labels_of(labels@),
            labels@.len() == points@.len(),
            d < D,
            count == label_count(ls, c as int, i as int),
            sum == label_sum(pts, ls, c as int, d as int, i as int),
            count <= i,
            sum <= count * 65535,
    {
        if labels[i] == c {
            let x = points[i][d];
            assert(pts[i as int][d as int] == x as int);
            count = count + 1;
            sum = sum + x as u128;
        }
    }
    if count == 0 {
        0
    } else {
        let m = sum / count;
        assert(m <= 65535) by (nonlinear_arith)
            requires
                sum <= count * 65535,
                count > 0,
                m == sum / count,
        ;
        m as u16
    }
}

/// The centroids that a labelling gives: each the rounded-down mean of its
/// points, the origin for an empty cluster.
pub fn recentre<const D: usize>(points: &Vec<[u16; D]>, labels: &Vec<usize>, k: usize) -> (r: Vec<
    [u16; D],
>)
    requires
        labels@.len() == points@.len(),
    ensures
        r@.len() == k,
        vecs_of(r@) == recentred(vecs_of(points@), labels_of(labels@), k as nat, D as nat),
{
    let ghost want = recentred(vecs_of(points@), labels_of(labels@), k as nat, D as nat);
    let mut out: Vec<[u16; D]> = Vec::with_capacity(k);
    for c in 0..k
        invariant
            labels@.len() == points@.len(),
            want == recentred(vecs_of(points@), labels_of(labels@), k as nat, D as nat),
            out@.len() == c,
            forall|j: int| 0 <= j < c ==> #[trigger] vecs_of(out@)[j] == want[j],
    {
        let mut m = [0u16; D];
        for d in 0..D
            invariant
                labels@.len() == points@.len(),
                c < k,
                want == recentred(vecs_of(points@), labels_of(labels@), k as nat, D as nat),
                forall|e: int| 0 <= e < d ==> #[trigger] m@[e] as int == want[c as int][e],
        {
            m[d] = cluster_mean_at(points, labels, c, d);
        }
        let ghost before = out@;
        out.push(m);
        assert(vec_of(m) =~= want[c as int]);
        assert forall|j: int| 0 <= j <= c implies #[trigger] vecs_of(out@)[j] == want[j] by {
            if j < c {
                assert(vecs_of(out@)[j] == vecs_of(before)[j]);
            }
        }
    }
    assert(vecs_of(out@) =~= want);
    out
}

/// Deterministic k-means: farthest-point seeding, then exactly `ITERS`
/// rounds of assignment and re-centring, with no early exit. An empty input
/// and a cluster count of zero are refused.
pub fn k_means<const K: usize, const D: usize, const ITERS: usize>(points: &Vec<[u16; D]>) -> (r:
    Result<KMeans<D>, TransferError>)
    ensures
        points@.len() == 0 <==> r matches Err(TransferError::EmptyInput),
        points@.len() > 0 && K == 0 <==> r matches Err(TransferError::ShapeMismatch),
        r is Ok ==> k_means_result(points@, K as nat, ITERS as nat, r->Ok_0),
{
    if points.len() == 0 {
        return Err(TransferError::EmptyInput);
    }
    if K == 0 {
        return Err(TransferError::ShapeMismatch);
    }
    let ghost pts = vecs_of(points@);
    let ghost init = initial_centroids(pts, K as nat);
    let mut centroids = k_means_init::<K, D>(points);
    let mut labels: Vec<usize> = Vec::new();
    assert(labels_of(labels@) =~= labels_after(pts, init, K as nat, D as nat, 0));
    for t in 0..ITERS
        invariant
            pts == vecs_of(points@),
            init == initial_centroids(pts, K as nat),
            K >= 1,
            centroids@.len() == K,
            vecs_of(centroids@) == centroids_after(pts, init, K as nat, D as nat, t as nat),
            labels_of(labels@) == labels_after(pts, init, K as nat, D as nat, t as nat),
    {
        labels = assign_labels(points, &centroids);
        centroids = recentre(points, &labels, K);
    }
    Ok(KMeans { means: centroids, labels })
}

/// Deterministic k-means is reproducible: any two results that `k_means`
/// may return for the same points, cluster count and iteration count hold
/// identical means and identical labels.
pub proof fn lemma_k_means_reproducible<const D: usize>(
    pts: Seq<[u16; D]>,
    k: nat,
    iters: nat,
    a: KMeans<D>,
    b: KMeans<D>,
)
    requires
        k_means_result(pts, k, iters, a),
        k_means_result(pts, k, iters, b),
    ensures
        a.means@ == b.means@,
        a.labels@ == b.labels@,
{
    assert forall|i: int| 0 <= i < a.means@.len() implies #[trigger] a.means@[i] == b.means@[i] by {
        assert(vecs_of(a.means@)[i] == vecs_of(b.means@)[i]);
        assert(a.means@[i]@ =~= b.means@[i]@) by {
            assert forall|d: int| 0 <= d < D implies a.means@[i]@[d] == b.means@[i]@[d] by {
                assert(vec_of(a.means@[i])[d] == vec_of(b.means@[i])[d]);
            }
        }
    }
    assert(a.means@ =~= b.means@);
    assert(labels_of(a.labels@).len() == labels_of(b.labels@).len());
    assert forall|i: int| 0 <= i < a.labels@.len() implies #[trigger] a.labels@[i] == b.labels@[i] by {
        assert(labels_of(a.labels@)[i] == labels_of(b.labels@)[i]);
    }
    assert(a.labels@ =~= b.labels@);
}

proof fn lemma_sq_dist_self(a: Seq<int>, n: int)
    ensures
        sq_dist_upto(a, a, n) == 0,
    decreases n,
{
    if n > 0 {
        lemma_sq_dist_self(a, n - 1);
    }
}

proof fn lemma_sq_dist_nonneg(a: Seq<int>, b: Seq<int>, n: int)
    ensures
        sq_dist_upto(a, b, n) >= 0,
    decreases n,
{
    if n > 0 {
        lemma_sq_dist_nonneg(a, b, n - 1);
        let x = a[n - 1] - b[n - 1];
        assert(x * x >= 0) by (nonlinear_arith);
    }
}

/// A point at distance zero from centroid 0 is labelled 0.
proof fn lemma_nearest_first(p: Seq<int>, cs: Seq<Seq<int>>, m: int)
    requires
        sq_dist(p, cs[0]) == 0,
    ensures
        nearest_upto(p, cs, m) == 0,
    decreases m,
{
    if m > 1 {
        lemma_nearest_first(p, cs, m - 1);
        lemma_sq_dist_nonneg(p, cs[m - 1], p.len() as int);
    }
}

proof fn lemma_farthest_in_range(pts: Seq<Seq<int>>, seeds: Seq<Seq<int>>, n: int)
    requires
        n >= 1,
    ensures
        0 <= farthest_upto(pts, seeds, n) < n,
    decreases n,
{
    if n > 1 {
        lemma_farthest_in_range(pts, seeds, n - 1);
    }
}

/// Points that are all equal to `v`.
pub open spec fn all_equal(pts: Seq<Seq<int>>, v: Seq<int>) -> bool {
    forall|i: int| 0 <= i < pts.len() ==> #[trigger] pts[i] == v
}

proof fn lemma_seeds_equal(pts: Seq<Seq<int>>, v: Seq<int>, i: nat)
    requires
        pts.len() > 0,
        all_equal(pts, v),
        i >= 1,
    ensures
        seeds(pts, i).len() == i,
        all_equal(seeds(pts, i), v),
    decreases i,
{
    if i > 1 {
        lemma_seeds_equal(pts, v, (i - 1) as nat);
        lemma_farthest_in_range(pts, seeds(pts, (i - 1) as nat), pts.len() as int);
    }
}

/// The centroids that identical points `v` leave: `v` first, the origin
/// for every other cluster.
pub open spec fn collapsed(v: Seq<int>, k: nat) -> Seq<Seq<int>> {
    Seq::new(
        k,
        |c: int|
            Seq::new(
                v.len(),
                |d: int|
                    if c == 0 {
                        v[d]
                    } else {
                        0
                    },
            ),
    )
}

proof fn lemma_labels_all_zero(pts: Seq<Seq<int>>, v: Seq<int>, cs: Seq<Seq<int>>)
    requires
        all_equal(pts, v),
        cs.len() >= 1,
        cs[0] == v,
    ensures
        forall|i: int| 0 <= i < pts.len() ==> #[trigger] assignment(pts, cs)[i] == 0,
{
    lemma_sq_dist_self(v, v.len() as int);
    assert forall|i: int| 0 <= i < pts.len() implies #[trigger] assignment(pts, cs)[i] == 0 by {
        lemma_nearest_first(pts[i], cs, cs.len() as int);
    }
}

proof fn lemma_zero_label_totals(pts: Seq<Seq<int>>, v: Seq<int>, labels: Seq<int>, c: int, d: int, n: int)
    requires
        0 <= n <= pts.len(),
        labels.len() == pts.len(),
        all_equal(pts, v),
        forall|i: int| 0 <= i < labels.len() ==> #[trigger] labels[i] == 0,
    ensures
        label_count(labels, c, n) == if c == 0 {
            n
        } else {
            0
        },
        label_sum(pts, labels, c, d, n) == if c == 0 {
            n * v[d]
        } else {
            0
        },
    decreases n,
{
    if n > 0 {
        lemma_zero_label_totals(pts, v, labels, c, d, n - 1);
        assert(pts[n - 1] == v);
        assert((n - 1) * v[d] + v[d] == n * v[d]) by (nonlinear_arith);
    }
}

proof fn lemma_collapse_step(pts: Seq<Seq<int>>, v: Seq<int>, cs: Seq<Seq<int>>, k: nat)
    requires
        pts.len() > 0,
        all_equal(pts, v),
        cs.len() == k,
        k >= 1,
        cs[0] == v,
    ensures
        recentred(pts, assignment(pts, cs), k, v.len()) == collapsed(v, k),
{
    let labels = assignment(pts, cs);
    lemma_labels_all_zero(pts, v, cs);
    let n = pts.len() as int;
    assert forall|c: int, d: int| 0 <= c < k && 0 <= d < v.len() implies #[trigger] cluster_mean(
        pts,
        labels,
        c,
        d,
    ) == collapsed(v, k)[c][d] by {
        lemma_zero_label_totals(pts, v, labels, c, d, n);
        if c == 0 {
            assert(n * v[d] / n == v[d]) by (nonlinear_arith)
                requires
                    n > 0,
            ;
        }
    }
    assert(recentred(pts, labels, k, v.len()) =~~= collapsed(v, k));
}

proof fn lemma_collapse_iterations(pts: Seq<Seq<int>>, v: Seq<int>, k: nat, t: nat)
    requires
        pts.len() > 0,
        all_equal(pts, v),
        k >= 1,
        t >= 1,
        v.len() == pts[0].len(),
    ensures
        centroids_after(pts, initial_centroids(pts, k), k, v.len(), t) == collapsed(v, k),
        forall|i: int|
            0 <= i < pts.len() ==> #[trigger] labels_after(
                pts,
                initial_centroids(pts, k),
                k,
                v.len(),
                t,
            )[i] == 0,
    decreases t,
{
    let init = initial_centroids(pts, k);
    if t == 1 {
        lemma_seeds_equal(pts, v, k);
        assert(init[0] == seeds(pts, k)[k - 1]);
        lemma_collapse_step(pts, v, init, k);
        lemma_labels_all_zero(pts, v, init);
        assert(centroids_after(pts, init, k, v.len(), 0) == init);
        assert(centroids_after(pts, init, k, v.len(), 1) == recentred(
            pts,
            assignment(pts, init),
            k,
            v.len(),
        ));
    } else {
        lemma_collapse_iterations(pts, v, k, (t - 1) as nat);
        let prev = centroids_after(pts, init, k, v.len(), (t - 1) as nat);
        assert(prev[0] =~= v);
        lemma_collapse_step(pts, v, prev, k);
        lemma_labels_all_zero(pts, v, prev);
        assert(centroids_after(pts, init, k, v.len(), t) == recentred(
            pts,
            assignment(pts, prev),
            k,
            v.len(),
        ));
    }
}

/// Empty clusters reset to the origin: when all points are equal, every
/// point is labelled 0, centroid 0 ends at that point, and every other
/// centroid ends at the origin after each iteration.
pub proof fn lemma_identical_points_leave_clusters_empty<const D: usize>(
    pts: Seq<[u16; D]>,
    k: nat,
    iters: nat,
    r: KMeans<D>,
)
    requires
        pts.len() > 0,
        k >= 1,
        iters >= 1,
        forall|i: int| 0 <= i < pts.len() ==> #[trigger] pts[i] == pts[0],
        k_means_result(pts, k, iters, r),
    ensures
        forall|d: int| 0 <= d < D ==> #[trigger] r.means@[0]@[d] == pts[0]@[d],
        forall|c: int, d: int| 1 <= c < k && 0 <= d < D ==> #[trigger] r.means@[c]@[d] == 0,
        r.labels@.len() == pts.len(),
        forall|i: int| 0 <= i < r.labels@.len() ==> #[trigger] r.labels@[i] == 0,
{
    let p = vecs_of(pts);
    let v = vec_of(pts[0]);
    assert(all_equal(p, v));
    lemma_collapse_iterations(p, v, k, iters);
    assert forall|c: int, d: int| 0 <= c < k && 0 <= d < D implies #[trigger] r.means@[c]@[d] as int
        == collapsed(v, k)[c][d] by {
        assert(vecs_of(r.means@)[c][d] == collapsed(v, k)[c][d]);
    }
    let ls = labels_after(p, initial_centroids(p, k), k, v.len(), iters);
    assert(ls.len() == p.len());
    assert(labels_of(r.labels@).len() == r.labels@.len());
    assert forall|i: int| 0 <= i < r.labels@.len() implies #[trigger] r.labels@[i] == 0 by {
        assert(labels_of(r.labels@)[i] == ls[i]);
    }
}

} // verus!
