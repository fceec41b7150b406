//! k-means that also estimates the spread of each cluster.
//!
//! Centroids start at random positions inside the per-channel range of the
//! input; the random numbers are supplied by the caller, so that a fixed
//! sequence reproduces a run. The spread of a cluster on a channel is the
//! square root (rounded down) of the sum of its points' squared deviations
//! from the centroid, divided by the number of all points, not of the
//! cluster's own.
use vstd::prelude::*;

use crate::clustering::{
    assign_labels, centroids_after, labels_after, labels_of, recentre, vec_of, vecs_of,
};
use crate::error::TransferError;

verus! {

/// Smallest value of channel `d` among the first `n` points.
pub open spec fn channel_min_upto(pts: Seq<Seq<int>>, d: int, n: int) -> int
    decreases n,
{
    if n <= 1 {
        pts[0][d]
    } else {
        let m = channel_min_upto(pts, d, n - 1);
        if pts[n - 1][d] < m {
            pts[n - 1][d]
        } else {
            m
        }
    }
}

/// Largest value of channel `d` among the first `n` points.
pub open spec fn channel_max_upto(pts: Seq<Seq<int>>, d: int, n: int) -> int
    decreases n,
{
    if n <= 1 {
        pts[0][d]
    } else {
        let m = channel_max_upto(pts, d, n - 1);
        if pts[n - 1][d] > m {
            pts[n - 1][d]
        } else {
            m
        }
    }
}

/// The starting centroid channel that draw `r` gives inside `[lo, hi]`.
pub open spec fn drawn(lo: int, hi: int, r: int) -> int {
    lo + r % (hi - lo + 1)
}

/// The `k` starting centroids: channel `d` of centroid `c` comes from draw
/// `c * dim + d`, placed inside the range of that channel over all points.
pub open spec fn random_start(pts: Seq<Seq<int>>, draws: Seq<u64>, k: nat, dim: nat) -> Seq<
    Seq<int>,
> {
    Seq::new(
        k,
        |c: int|
            Seq::new(
                dim,
                |d: int|
                    drawn(
                        channel_min_upto(pts, d, pts.len() as int),
                        channel_max_upto(pts, d, pts.len() as int),
                        draws[c * dim + d] as int,
                    ),
            ),
    )
}

/// Sum over the first `n` points labelled `c` of the squared deviation of
/// channel `d` from centroid `c`.
pub open spec fn dev_sum(
    pts: Seq<Seq<int>>,
    labels: Seq<int>,
    cs: Seq<Seq<int>>,
    c: int,
    d: int,
    n: int,
) -> int
    decreases n,
{
    if n <= 0 {
        0
    } else {
        dev_sum(pts, labels, cs, c, d, n - 1) + if labels[n - 1] == c {
            (pts[n - 1][d] - cs[c][d]) * (pts[n - 1][d] - cs[c][d])
        } else {
            0int
        }
    }
}

/// `s` is the square root of `x`, rounded down.
pub open spec fn is_floor_sqrt(x: int, s: int) -> bool {
    0 <= s && s * s <= x && x < (s + 1) * (s + 1)
}

/// Spread of cluster `c` on channel `d`, given labels and centroids.
pub open spec fn is_spread(
    pts: Seq<Seq<int>>,
    labels: Seq<int>,
    cs: Seq<Seq<int>>,
    c: int,
    d: int,
    s: int,
) -> bool {
    is_floor_sqrt(dev_sum(pts, labels, cs, c, d, pts.len() as int) / pts.len() as int, s)
}

/// Result of a k-means run with spreads: `K` means and, for each, the
/// spread of its cluster on every channel.
pub struct KMeansStd<const D: usize> {
    pub means: Vec<[u16; D]>,
    pub stds: Vec<[u16; D]>,
}

/// What k-means with spreads returns for the non-empty `pts`, the draws,
/// `k` clusters and `iters` iterations. Before any iteration every spread
/// is zero.
pub open spec fn k_means_std_result<const D: usize>(
    pts: Seq<[u16; D]>,
    draws: Seq<u64>,
    k: nat,
    iters: nat,
    r: KMeansStd<D>,
) -> bool {
    let p = vecs_of(pts);
    let init = random_start(p, draws, k, D as nat);
    let cs = centroids_after(p, init, k, D as nat, iters);
    let ls = labels_after(p, init, k, D as nat, iters);
    &&& r.means@.len() == k
    &&& vecs_of(r.means@) == cs
    &&& r.stds@.len() == k
    &&& forall|c: int, d: int|
        0 <= c < k && 0 <= d < D ==> if iters == 0 {
            #[trigger] r.stds@[c]@[d] == 0
        } else {
            is_spread(p, ls, cs, c, d, r.stds@[c]@[d] as int)
        }
}

/// Square root rounded down.
pub fn floor_sqrt(x: u64) -> (r: u16)
    requires
        x <= 65535 * 65535,
    ensures
        is_floor_sqrt(x as int, r as int),
{
    let mut lo: u64 = 0;
    let mut hi: u64 = 65536;
    while hi - lo > 1
        invariant
            lo < hi <= 65536,
            lo * lo <= x,
            x < hi * hi,
        decreases hi - lo,
    {
        let mid = lo + (hi - lo) / 2;
        assert(mid * mid <= 65536 * 65536) by (nonlinear_arith)
            requires
                mid <= 65536,
        ;
        if mid * mid <= x {
            lo = mid;
        } else {
            hi = mid;
        }
    }
    assert(lo <= 65535);
    lo as u16
}

/// Smallest and largest value of channel `d` over all points.
pub fn channel_range<const D: usize>(points: &Vec<[u16; D]>, d: usize) -> (r: (u16, u16))
    requires
        points@.len() > 0,
        d < D,
    ensures
        r.0 as int == channel_min_upto(vecs_of(points@), d as int, points@.len() as int),
        r.1 as int == channel_max_upto(vecs_of(points@), d as int, points@.len() as int),
        r.0 <= r.1,
{
    let ghost pts = vecs_of(points@);
    let mut lo = points[0][d];
    let mut hi = points[0][d];
    let mut i: usize = 1;
    while i < points.len()
        invariant
            pts == vecs_of(points@),
            d < D,
            1 <= i <= points@.len(),
            lo as int == channel_min_upto(pts, d as int, i as int),
            hi as int == channel_max_upto(pts, d as int, i as int),
            lo <= hi,
        decreases points@.len() - i,
    {
        let x = points[i][d];
        assert(pts[i as int][d as int] == x as int);
        if x < lo {
            lo = x;
        }
        if x > hi {
            hi = x;
        }
        i = i + 1;
    }
    (lo, hi)
}

/// The starting centroids that the draws give.
pub fn random_centroids<const K: usize, const D: usize>(
    points: &Vec<[u16; D]>,
    draws: &Vec<u64>,
) -> (r: Vec<[u16; D]>)
    requires
        points@.len() > 0,
        draws@.len() == K * D,
    ensures
        r@.len() == K,
        vecs_of(r@) == random_start(vecs_of(points@), draws@, K as nat, D as nat),
{
    let ghost want = random_start(vecs_of(points@), draws@, K as nat, D as nat);
    let mut out: Vec<[u16; D]> = Vec::with_capacity(K);
    for c in 0..K
        invariant
            points@.len() > 0,
            draws@.len() == K * D,
            want == random_start(vecs_of(points@), draws@, K as nat, D as nat),
            out@.len() == c,
            forall|j: int| 0 <= j < c ==> #[trigger] vecs_of(out@)[j] == want[j],
    {
        let mut m = [0u16; D];
        for d in 0..D
            invariant
                points@.len() > 0,
                draws@.len() == K * D,
                c < K,
                want == random_start(vecs_of(points@), draws@, K as nat, D as nat),
                forall|e: int| 0 <= e < d ==> #[trigger] m@[e] as int == want[c as int][e],
        {
            let (lo, hi) = channel_range(points, d);
            assert(c * D + d < draws.len()) by (nonlinear_arith)
                requires
                    c < K,
                    d < D,
                    draws.len() == K * D,
            ;
            let width = (hi - lo) as u64 + 1;
            let off = draws[c * D + d] % width;
            m[d] = lo + off as u16;
        }
        let ghost before = out@;
        out.push(m);
        assert(vec_of(m) =~= want[c as int]);
        assert forall|j: int| 0 <= j <= c implies #[trigger] vecs_of(out@)[j] == want[j] by {
            if j < c {
                assert(vecs_of(out@)[j] == vecs_of(before)[j]);
            }
        }
    }
    assert(vecs_of(out@) =~= want);
    out
}

/// Spread of cluster `c` on channel `d` around `centroid`.
pub fn spread_at<const D: usize>(
    points: &Vec<[u16; D]>,
    labels: &Vec<usize>,
    centroids: &Vec<[u16; D]>,
    c: usize,
    d: usize,
) -> (r: u16)
    requires
        points@.len() > 0,
        labels@.len() == points@.len(),
        c < centroids@.len(),
        d < D,
    ensures
        is_spread(
            vecs_of(points@),
            labels_of(labels@),
            vecs_of(centroids@),
            c as int,
            d as int,
            r as int,
        ),
{
    let ghost pts = vecs_of(points@);
    let ghost ls = labels_of(labels@);
    let ghost cs = vecs_of(centroids@);
    let m = centroids[c][d];
    assert(cs[c as int][d as int] == m as int);
    let mut sum: u128 = 0;
    for i in 0..points.len()
        invariant
            pts == vecs_of(points@),
            ls == labels_of(labels@),
            cs == vecs_of(centroids@),
            labels@.len() == points@.len(),
            c < centroids@.len(),
            d < D,
            cs[c as int][d as int] == m as int,
            sum == dev_sum(pts, ls, cs, c as int, d as int, i as int),
            sum <= i * (65535 * 65535),
    {
        let x = points[i][d];
        assert(pts[i as int][d as int] == x as int);
        if labels[i] == c {
            let diff: u128 = if x >= m {
                (x - m) as u128
            } else {
                (m - x) as u128
            };
            assert(diff * diff <= 65535 * 65535) by (nonlinear_arith)
                requires
                    diff <= 65535,
            ;
            assert(diff * diff == (x as int - m as int) * (x as int - m as int)) by (nonlinear_arith)
                requires
                    diff == if x >= m {
                        x - m
                    } else {
                        m - x
                    },
            ;
            assert(sum + diff * diff <= (i + 1) * (65535 * 65535)) by (nonlinear_arith)
                requires
                    sum <= i * (65535 * 65535),
                    diff * diff <= 65535 * 65535,
            ;
            assert((i + 1) * (65535 * 65535) < 0x1_0000_0000_0000_0000_0000_0000_0000_0000)
                by (nonlinear_arith)
                requires
                    i < 0x1_0000_0000_0000_0000,
            ;
            sum = sum + diff * diff;
        } else {
            assert(sum <= (i + 1) * (65535 * 65535)) by (nonlinear_arith)
                requires
                    sum <= i * (65535 * 65535),
            ;
        }
    }
    let n = points.len() as u128;
    let q = sum / n;
    assert(q <= 65535 * 65535) by (nonlinear_arith)
        requires
            sum <= n * (65535 * 65535),
            n > 0,
            q == sum / n,
    ;
    floor_sqrt(q as u64)
}

/// Spread of every cluster on every channel.
pub fn spreads<const D: usize>(
    points: &Vec<[u16; D]>,
    labels: &Vec<usize>,
    centroids: &Vec<[u16; D]>,
) -> (r: Vec<[u16; D]>)
    requires
        points@.len() > 0,
        labels@.len() == points@.len(),
    ensures
        r@.len() == centroids@.len(),
        forall|c: int, d: int|
            0 <= c < centroids@.len() && 0 <= d < D ==> is_spread(
                vecs_of(points@),
                labels_of(labels@),
                vecs_of(centroids@),
                c,
                d,
                #[trigger] r@[c]@[d] as int,
            ),
{
    let mut out: Vec<[u16; D]> = Vec::with_capacity(centroids.len());
    for c in 0..centroids.len()
        invariant
            points@.len() > 0,
            labels@.len() == points@.len(),
            out@.len() == c,
            forall|j: int, d: int|
                0 <= j < c && 0 <= d < D ==> is_spread(
                    vecs_of(points@),
                    labels_of(labels@),
                    vecs_of(centroids@),
                    j,
                    d,
                    #[trigger] out@[j]@[d] as int,
                ),
    {
        let mut s = [0u16; D];
        for d in 0..D
            invariant
                points@.len() > 0,
                labels@.len() == points@.len(),
                c < centroids@.len(),
                forall|e: int|
                    0 <= e < d ==> is_spread(
                        vecs_of(points@),
                        labels_of(labels@),
                        vecs_of(centroids@),
                        c as int,
                        e,
                        #[trigger] s@[e] as int,
                    ),
        {
            s[d] = spread_at(points, labels, centroids, c, d);
        }
        let ghost before = out@;
        out.push(s);
        assert forall|j: int, d: int| 0 <= j <= c && 0 <= d < D implies is_spread(
            vecs_of(points@),
            labels_of(labels@),
            vecs_of(centroids@),
            j,
            d,
            #[trigger] out@[j]@[d] as int,
        ) by {
            if j < c {
                assert(out@[j] == before[j]);
            }
        }
    }
    out
}

/// k-means with spreads: random starting centroids from `draws` (one per
/// cluster and channel, cluster-major), then exactly `ITERS` rounds of
/// assignment, re-centring and spread estimation. An empty input is refused;
/// so are a cluster count of zero and a number of draws other than `K * D`.
pub fn k_means_std<const K: usize, const D: usize, const ITERS: usize>(
    points: &Vec<[u16; D]>,
    draws: &Vec<u64>,
) -> (r: Result<KMeansStd<D>, TransferError>)
    ensures
        points@.len() == 0 <==> r matches Err(TransferError::EmptyInput),
        points@.len() > 0 && (K == 0 || draws@.len() != K * D) <==> r matches Err(
            TransferError::ShapeMismatch,
        ),
        r is Ok ==> k_means_std_result(points@, draws@, K as nat, ITERS as nat, r->Ok_0),
{
    if points.len() == 0 {
        return Err(TransferError::EmptyInput);
    }
    assert(K as u128 * D as u128 <= 0xffff_ffff_ffff_ffff * 0xffff_ffff_ffff_ffff) by (nonlinear_arith)
        requires
            K <= 0xffff_ffff_ffff_ffff,
            D <= 0xffff_ffff_ffff_ffff,
    ;
    if K == 0 || draws.len() as u128 != K as u128 * D as u128 {
        return Err(TransferError::ShapeMismatch);
    }
    let ghost pts = vecs_of(points@);
    let ghost init = random_start(pts, draws@, K as nat, D as nat);
    let mut centroids = random_centroids::<K, D>(points, draws);
    let mut stds: Vec<[u16; D]> = Vec::with_capacity(K);
    for c in 0..K
        invariant
            stds@.len() == c,
            forall|j: int, d: int| 0 <= j < c && 0 <= d < D ==> #[trigger] stds@[j]@[d] == 0,
    {
        stds.push([0u16; D]);
    }
    for t in 0..ITERS
        invariant
            pts == vecs_of(points@),
            init == random_start(pts, draws@, K as nat, D as nat),
            points@.len() > 0,
            K >= 1,
            centroids@.len() == K,
            stds@.len() == K,
            vecs_of(centroids@) == centroids_after(pts, init, K as nat, D as nat, t as nat),
            forall|c: int, d: int|
                0 <= c < K && 0 <= d < D ==> if t == 0 {
                    #[trigger] stds@[c]@[d] == 0
                } else {
                    is_spread(
                        pts,
                        labels_after(pts, init, K as nat, D as nat, t as nat),
                        centroids_after(pts, init, K as nat, D as nat, t as nat),
                        c,
                        d,
                        stds@[c]@[d] as int,
                    )
                },
    {
        let labels = assign_labels(points, &centroids);
        centroids = recentre(points, &labels, K);
        stds = spreads(points, &labels, &centroids);
    }
    Ok(KMeansStd { means: centroids, stds })
}

} // verus!
