//! Recombining cluster statistics of a source and a destination population.
//!
//! Results are signed: a shifted or rescaled channel may leave the range of
//! the input channels, and it is the caller's choice how to bring it back.
use vstd::prelude::*;

use crate::clustering::{
    assignment, centroids_after, initial_centroids, k_means_result, label_count, label_sum,
    labels_after, labels_of, nearest_upto, recentred, vec_of, vecs_of, KMeans,
};
use crate::error::TransferError;

verus! {

/// Number of leading channels that carry colour; the rest (alpha) pass through.
pub const COLOUR_CHANNELS: usize = 3;

/// Channel `d` of a pixel `p` after mean-shift by a destination mean `dm`
/// and a source mean `sm`.
pub open spec fn shifted(p: int, dm: int, sm: int, d: int) -> int {
    if d < COLOUR_CHANNELS {
        p - dm + sm
    } else {
        p
    }
}

/// Whether every label names one of `n` clusters.
pub open spec fn labels_in_range(labels: Seq<usize>, n: int) -> bool {
    forall|i: int| 0 <= i < labels.len() ==> #[trigger] labels[i] < n
}

/// `out` is what mean-shift makes of `pixels` with their labels, the
/// destination means and the source mean.
pub open spec fn is_mean_shift<const D: usize>(
    pixels: Seq<[u16; D]>,
    labels: Seq<usize>,
    dst_means: Seq<[u16; D]>,
    src_mean: [u16; D],
    out: Seq<[i32; D]>,
) -> bool {
    &&& out.len() == pixels.len()
    &&& forall|i: int, d: int|
        0 <= i < out.len() && 0 <= d < D ==> #[trigger] out[i]@[d] as int == shifted(
            pixels[i]@[d] as int,
            dst_means[labels[i] as int]@[d] as int,
            src_mean@[d] as int,
            d,
        )
}

/// Mean-shift transfer: every colour channel of each pixel moves by the
/// source mean minus the mean of the pixel's own destination cluster.
/// Labels that do not match the pixels, or name no cluster, are refused.
pub fn mean_shift<const D: usize>(
    pixels: &Vec<[u16; D]>,
    labels: &Vec<usize>,
    dst_means: &Vec<[u16; D]>,
    src_mean: &[u16; D],
) -> (r: Result<Vec<[i32; D]>, TransferError>)
    ensures
        r is Err <==> (labels@.len() != pixels@.len() || !labels_in_range(
            labels@,
            dst_means@.len() as int,
        )),
        r is Err ==> r == Err::<Vec<[i32; D]>, TransferError>(TransferError::ShapeMismatch),
        r is Ok ==> is_mean_shift(pixels@, labels@, dst_means@, *src_mean, r->Ok_0@),
{
    if labels.len() != pixels.len() {
        return Err(TransferError::ShapeMismatch);
    }
    for i in 0..labels.len()
        invariant
            forall|j: int| 0 <= j < i ==> #[trigger] labels@[j] < dst_means@.len(),
    {
        if labels[i] >= dst_means.len() {
            return Err(TransferError::ShapeMismatch);
        }
    }
    let mut out: Vec<[i32; D]> = Vec::with_capacity(pixels.len());
    for i in 0..pixels.len()
        invariant
            labels@.len() == pixels@.len(),
            labels_in_range(labels@, dst_means@.len() as int),
            out@.len() == i,
            forall|j: int, d: int|
                0 <= j < i && 0 <= d < D ==> #[trigger] out@[j]@[d] as int == shifted(
                    pixels@[j]@[d] as int,
                    dst_means@[labels@[j] as int]@[d] as int,
                    src_mean@[d] as int,
                    d,
                ),
    {
        let p = pixels[i];
        let dm = dst_means[labels[i]];
        let mut q = [0i32; D];
        for d in 0..D
            invariant
                forall|e: int|
                    0 <= e < d ==> #[trigger] q@[e] as int == shifted(
                        p@[e] as int,
                        dm@[e] as int,
                        src_mean@[e] as int,
                        e,
                    ),
        {
            if d < COLOUR_CHANNELS {
                q[d] = p[d] as i32 - dm[d] as i32 + src_mean[d] as i32;
            } else {
                q[d] = p[d] as i32;
            }
        }
        let ghost before = out@;
        out.push(q);
        assert forall|j: int, d: int| 0 <= j <= i && 0 <= d < D implies #[trigger] out@[j]@[d] as int
            == shifted(
            pixels@[j]@[d] as int,
            dst_means@[labels@[j] as int]@[d] as int,
            src_mean@[d] as int,
            d,
        ) by {
            if j < i {
                assert(out@[j] == before[j]);
            }
        }
    }
    Ok(out)
}

/// The full mean-shift policy: one output per source mean, each shifting the
/// destination pixels by that mean and their own cluster's mean.
pub fn mean_shift_variants<const D: usize>(
    pixels: &Vec<[u16; D]>,
    dst: &KMeans<D>,
    src_means: &Vec<[u16; D]>,
) -> (r: Result<Vec<Vec<[i32; D]>>, TransferError>)
    ensures
        r is Err <==> (dst.labels@.len() != pixels@.len() || !labels_in_range(
            dst.labels@,
            dst.means@.len() as int,
        )),
        r is Err ==> r == Err::<Vec<Vec<[i32; D]>>, TransferError>(TransferError::ShapeMismatch),
        r is Ok ==> {
            let outs = r->Ok_0;
            &&& outs@.len() == src_means@.len()
            &&& forall|s: int| 0 <= s < outs@.len() ==> (#[trigger] outs@[s])@.len() == pixels@.len()
            &&& forall|s: int, i: int, d: int|
                0 <= s < outs@.len() && 0 <= i < pixels@.len() && 0 <= d < D
                    ==> #[trigger] outs@[s]@[i]@[d] as int == shifted(
                    pixels@[i]@[d] as int,
                    dst.means@[dst.labels@[i] as int]@[d] as int,
                    src_means@[s]@[d] as int,
                    d,
                )
        },
{
    let mut outs: Vec<Vec<[i32; D]>> = Vec::with_capacity(src_means.len());
    if src_means.len() == 0 {
        if dst.labels.len() != pixels.len() {
            return Err(TransferError::ShapeMismatch);
        }
        for i in 0..dst.labels.len()
            invariant
                forall|j: int| 0 <= j < i ==> #[trigger] dst.labels@[j] < dst.means@.len(),
        {
            if dst.labels[i] >= dst.means.len() {
                return Err(TransferError::ShapeMismatch);
            }
        }
        return Ok(outs);
    }
    for s in 0..src_means.len()
        invariant
            src_means@.len() > 0,
            s > 0 ==> (dst.labels@.len() == pixels@.len() && labels_in_range(
                dst.labels@,
                dst.means@.len() as int,
            )),
            outs@.len() == s,
            forall|t: int| 0 <= t < s ==> (#[trigger] outs@[t])@.len() == pixels@.len(),
            forall|t: int, i: int, d: int|
                0 <= t < s && 0 <= i < pixels@.len() && 0 <= d < D
                    ==> #[trigger] outs@[t]@[i]@[d] as int == shifted(
                    pixels@[i]@[d] as int,
                    dst.means@[dst.labels@[i] as int]@[d] as int,
                    src_means@[t]@[d] as int,
                    d,
                ),
    {
        let one = mean_shift(pixels, &dst.labels, &dst.means, &src_means[s]);
        match one {
            Err(e) => {
                return Err(e);
            },
            Ok(v) => {
                let ghost before = outs@;
                outs.push(v);
                assert forall|t: int, i: int, d: int|
                    0 <= t <= s && 0 <= i < pixels@.len() && 0 <= d < D
                        implies #[trigger] outs@[t]@[i]@[d] as int == shifted(
                        pixels@[i]@[d] as int,
                        dst.means@[dst.labels@[i] as int]@[d] as int,
                        src_means@[t]@[d] as int,
                        d,
                    ) by {
                    if t < s {
                        assert(outs@[t] == before[t]);
                    }
                }
            },
        }
    }
    Ok(outs)
}

/// Channel `d` of a value `v` after matching statistics: the offset from the
/// destination mean `dm`, scaled by `ss / ds` with the quotient truncated
/// toward zero, then added to the source mean `sm`. A zero destination
/// spread gives the source mean.
pub open spec fn rescaled(v: int, dm: int, ds: int, sm: int, ss: int, d: int) -> int {
    if d >= COLOUR_CHANNELS {
        v
    } else if ds == 0 {
        sm
    } else if v >= dm {
        sm + (v - dm) * ss / ds
    } else {
        sm - (dm - v) * ss / ds
    }
}

/// Statistics-matching transfer: each colour channel of every pixel is moved
/// from the destination cluster's mean and spread to the source cluster's.
pub fn match_statistics<const D: usize>(
    pixels: &Vec<[u16; D]>,
    src_mean: &[u16; D],
    src_std: &[u16; D],
    dst_mean: &[u16; D],
    dst_std: &[u16; D],
) -> (r: Vec<[i64; D]>)
    ensures
        r@.len() == pixels@.len(),
        forall|i: int, d: int|
            0 <= i < r@.len() && 0 <= d < D ==> #[trigger] r@[i]@[d] as int == rescaled(
                pixels@[i]@[d] as int,
                dst_mean@[d] as int,
                dst_std@[d] as int,
                src_mean@[d] as int,
                src_std@[d] as int,
                d,
            ),
{
    let mut out: Vec<[i64; D]> = Vec::with_capacity(pixels.len());
    for i in 0..pixels.len()
        invariant
            out@.len() == i,
            forall|j: int, d: int|
                0 <= j < i && 0 <= d < D ==> #[trigger] out@[j]@[d] as int == rescaled(
                    pixels@[j]@[d] as int,
                    dst_mean@[d] as int,
                    dst_std@[d] as int,
                    src_mean@[d] as int,
                    src_std@[d] as int,
                    d,
                ),
    {
        let p = pixels[i];
        let mut q = [0i64; D];
        for d in 0..D
            invariant
                forall|e: int|
                    0 <= e < d ==> #[trigger] q@[e] as int == rescaled(
                        p@[e] as int,
                        dst_mean@[e] as int,
                        dst_std@[e] as int,
                        src_mean@[e] as int,
                        src_std@[e] as int,
                        e,
                    ),
        {
            let v = p[d] as u64;
            let dm = dst_mean[d] as u64;
            let ds = dst_std[d] as u64;
            let sm = src_mean[d] as u64;
            let ss = src_std[d] as u64;
            if d >= COLOUR_CHANNELS {
                q[d] = v as i64;
            } else if ds == 0 {
                q[d] = sm as i64;
            } else {
                let off = if v >= dm {
                    v - dm
                } else {
                    dm - v
                };
                assert(off * ss <= 65535 * 65535) by (nonlinear_arith)
                    requires
                        off <= 65535,
                        ss <= 65535,
                ;
                let scaled = off * ss / ds;
                assert(scaled <= off * ss) by (nonlinear_arith)
                    requires
                        ds >= 1,
                        scaled as int == (off * ss) as int / ds as int,
                ;
                if v >= dm {
                    q[d] = sm as i64 + scaled as i64;
                } else {
                    q[d] = sm as i64 - scaled as i64;
                }
            }
        }
        let ghost before = out@;
        out.push(q);
        assert forall|j: int, d: int| 0 <= j <= i && 0 <= d < D implies #[trigger] out@[j]@[d] as int
            == rescaled(
            pixels@[j]@[d] as int,
            dst_mean@[d] as int,
            dst_std@[d] as int,
            src_mean@[d] as int,
            src_std@[d] as int,
            d,
        ) by {
            if j < i {
                assert(out@[j] == before[j]);
            }
        }
    }
    out
}

/// Sum of channel `d` over the first `n` output pixels.
pub open spec fn out_sum<const D: usize>(out: Seq<[i32; D]>, d: int, n: int) -> int
    decreases n,
{
    if n <= 0 {
        0
    } else {
        out_sum(out, d, n - 1) + out[n - 1]@[d] as int
    }
}

proof fn lemma_single_label_totals(labels: Seq<int>, n: int)
    requires
        0 <= n <= labels.len(),
        forall|i: int| 0 <= i < labels.len() ==> #[trigger] labels[i] == 0,
    ensures
        label_count(labels, 0, n) == n,
    decreases n,
{
    if n > 0 {
        lemma_single_label_totals(labels, n - 1);
    }
}

proof fn lemma_out_sum<const D: usize>(
    pixels: Seq<[u16; D]>,
    labels: Seq<usize>,
    dst_means: Seq<[u16; D]>,
    src_mean: [u16; D],
    out: Seq<[i32; D]>,
    d: int,
    n: int,
)
    requires
        is_mean_shift(pixels, labels, dst_means, src_mean, out),
        forall|i: int| 0 <= i < labels.len() ==> #[trigger] labels[i] == 0,
        labels.len() == pixels.len(),
        0 <= d < COLOUR_CHANNELS,
        d < D,
        0 <= n <= pixels.len(),
    ensures
        out_sum(out, d, n) == label_sum(vecs_of(pixels), labels_of(labels), 0, d, n) - n * (
        dst_means[0]@[d] as int) + n * (src_mean@[d] as int),
    decreases n,
{
    if n > 0 {
        lemma_out_sum(pixels, labels, dst_means, src_mean, out, d, n - 1);
        assert(labels[n - 1] == 0);
        assert(labels_of(labels)[n - 1] == 0);
        assert(vecs_of(pixels)[n - 1][d] == pixels[n - 1]@[d] as int);
        let dm = dst_means[0]@[d] as int;
        let sm = src_mean@[d] as int;
        assert(out[n - 1]@[d] as int == pixels[n - 1]@[d] as int - dm + sm);
        assert(n * dm == (n - 1) * dm + dm && n * sm == (n - 1) * sm + sm) by (nonlinear_arith);
        assert(out_sum(out, d, n) == out_sum(out, d, n - 1) + out[n - 1]@[d] as int);
        assert(label_sum(vecs_of(pixels), labels_of(labels), 0, d, n) == label_sum(
            vecs_of(pixels),
            labels_of(labels),
            0,
            d,
            n - 1,
        ) + vecs_of(pixels)[n - 1][d]);
    } else {
        assert(0 * (dst_means[0]@[d] as int) == 0 && 0 * (src_mean@[d] as int) == 0);
    }
}

/// Mean-shift with one destination cluster lands on the source mean: when
/// the destination was clustered by `k_means` into a single cluster, the
/// rounded-down mean of every colour channel of the mean-shift output is
/// exactly that channel of the source mean.
pub proof fn lemma_single_cluster_shift_lands_on_source_mean<const D: usize>(
    pixels: Seq<[u16; D]>,
    iters: nat,
    dst: KMeans<D>,
    src_mean: [u16; D],
    out: Seq<[i32; D]>,
    d: int,
)
    requires
        pixels.len() > 0,
        iters >= 1,
        k_means_result(pixels, 1, iters, dst),
        is_mean_shift(pixels, dst.labels@, dst.means@, src_mean, out),
        0 <= d < COLOUR_CHANNELS,
        d < D,
    ensures
        out_sum(out, d, out.len() as int) / out.len() as int == src_mean@[d] as int,
{
    let p = vecs_of(pixels);
    let init = initial_centroids(p, 1);
    let prev = centroids_after(p, init, 1, D as nat, (iters - 1) as nat);
    let ls = labels_after(p, init, 1, D as nat, iters);
    let n = pixels.len() as int;
    assert(ls == assignment(p, prev));
    assert(labels_of(dst.labels@) == ls);
    assert(labels_of(dst.labels@).len() == dst.labels@.len());
    assert forall|i: int| 0 <= i < dst.labels@.len() implies #[trigger] dst.labels@[i] == 0 by {
        assert(labels_of(dst.labels@)[i] == ls[i]);
        assert(nearest_upto(p[i], prev, 1) == 0);
    }
    let labels = labels_of(dst.labels@);
    assert forall|i: int| 0 <= i < labels.len() implies #[trigger] labels[i] == 0 by {
        assert(dst.labels@[i] == 0);
    }
    let cs = centroids_after(p, init, 1, D as nat, iters);
    assert(cs == recentred(p, labels, 1, D as nat));
    assert(vecs_of(dst.means@)[0][d] == cs[0][d]);
    assert(vec_of(dst.means@[0])[d] == dst.means@[0]@[d] as int);
    lemma_single_label_totals(labels, n);
    let total = label_sum(p, labels, 0, d, n);
    let dm = dst.means@[0]@[d] as int;
    let sm = src_mean@[d] as int;
    assert(dm == total / n);
    lemma_out_sum(pixels, dst.labels@, dst.means@, src_mean, out, d, n);
    let q = total / n;
    let r = total % n;
    assert(total == n * q + r && 0 <= r < n) by (nonlinear_arith)
        requires
            n > 0,
            q == total / n,
            r == total % n,
    ;
    assert(total - n * dm + n * sm == n * sm + r) by (nonlinear_arith)
        requires
            total == n * q + r,
            dm == q,
    ;
    vstd::arithmetic::div_mod::lemma_div_multiples_vanish_fancy(sm, r, n);
}

} // verus!
