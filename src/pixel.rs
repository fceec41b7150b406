//! RGBA byte pixels: alpha thresholding and packing into flat buffers.
use vstd::prelude::*;

use crate::error::TransferError;

verus! {

/// A fully transparent black pixel.
pub open spec fn transparent() -> Seq<u8> {
    seq![0u8, 0u8, 0u8, 0u8]
}

/// What thresholding does to one pixel: a pixel whose alpha is below `t`
/// becomes fully transparent black, any other pixel stays as it is.
pub open spec fn thresholded(p: Seq<u8>, t: u8) -> Seq<u8> {
    if p[3] < t {
        transparent()
    } else {
        p
    }
}

/// Suppresses near-transparent pixels: alpha below `T` gives `[0, 0, 0, 0]`.
pub fn threshold_alpha<const T: u8>(rgba: [u8; 4]) -> (r: [u8; 4])
    ensures
        r@ == thresholded(rgba@, T),
{
    if rgba[3] < T {
        let z = [0u8; 4];
        assert(z@ =~= transparent());
        z
    } else {
        rgba
    }
}

/// Applies `threshold_alpha` to every pixel of a buffer.
pub fn threshold_pixels<const T: u8>(pixels: &Vec<[u8; 4]>) -> (r: Vec<[u8; 4]>)
    ensures
        r@.len() == pixels@.len(),
        forall|i: int| 0 <= i < r@.len() ==> (#[trigger] r@[i])@ == thresholded(pixels@[i]@, T),
{
    let mut out: Vec<[u8; 4]> = Vec::with_capacity(pixels.len());
    for i in 0..pixels.len()
        invariant
            out@.len() == i,
            forall|j: int| 0 <= j < i ==> (#[trigger] out@[j])@ == thresholded(pixels@[j]@, T),
    {
        out.push(threshold_alpha::<T>(pixels[i]));
    }
    out
}

/// Splits an interleaved RGBA buffer into pixels, four bytes each, in order.
/// A buffer whose length is not a multiple of four is refused.
pub fn pixels_from_bytes(data: &Vec<u8>) -> (r: Result<Vec<[u8; 4]>, TransferError>)
    ensures
        data@.len() % 4 != 0 <==> r == Err::<Vec<[u8; 4]>, TransferError>(
            TransferError::ShapeMismatch,
        ),
        data@.len() % 4 == 0 ==> r is Ok,
        r is Ok ==> {
            let px = r->Ok_0;
            &&& px@.len() * 4 == data@.len()
            &&& forall|i: int, c: int|
                0 <= i < px@.len() && 0 <= c < 4 ==> #[trigger] px@[i]@[c] == data@[4 * i + c]
        },
{
    if data.len() % 4 != 0 {
        return Err(TransferError::ShapeMismatch);
    }
    let n = data.len() / 4;
    let mut out: Vec<[u8; 4]> = Vec::with_capacity(n);
    for i in 0..n
        invariant
            n * 4 == data@.len(),
            out@.len() == i,
            forall|j: int, c: int|
                0 <= j < i && 0 <= c < 4 ==> #[trigger] out@[j]@[c] == data@[4 * j + c],
    {
        assert(4 * i + 3 < data.len()) by (nonlinear_arith)
            requires
                i < n,
                n * 4 == data.len(),
        ;
        let b = 4 * i;
        let p = [data[b], data[b + 1], data[b + 2], data[b + 3]];
        out.push(p);
        proof {
            assert forall|j: int, c: int|
                0 <= j <= i && 0 <= c < 4 implies #[trigger] out@[j]@[c] == data@[4 * j + c] by {
                if j == i {
                    assert(c == 0 || c == 1 || c == 2 || c == 3);
                }
            }
        }
    }
    Ok(out)
}

/// Interleaves pixels back into a flat RGBA buffer, four bytes per pixel.
pub fn bytes_from_pixels(pixels: &Vec<[u8; 4]>) -> (r: Vec<u8>)
    requires
        pixels@.len() * 4 <= usize::MAX,
    ensures
        r@.len() == pixels@.len() * 4,
        forall|i: int, c: int|
            0 <= i < pixels@.len() && 0 <= c < 4 ==> r@[4 * i + c] == #[trigger] pixels@[i]@[c],
{
    let mut out: Vec<u8> = Vec::with_capacity(pixels.len() * 4);
    for i in 0..pixels.len()
        invariant
            pixels@.len() * 4 <= usize::MAX,
            out@.len() == 4 * i,
            forall|j: int, c: int|
                0 <= j < i && 0 <= c < 4 ==> out@[4 * j + c] == #[trigger] pixels@[j]@[c],
    {
        let p = pixels[i];
        let ghost before = out@;
        out.push(p[0]);
        out.push(p[1]);
        out.push(p[2]);
        out.push(p[3]);
        proof {
            assert forall|j: int, c: int|
                0 <= j <= i && 0 <= c < 4 implies out@[4 * j + c] == #[trigger] pixels@[j]@[c] by {
                if j < i {
                    assert(out@[4 * j + c] == before[4 * j + c]);
                } else {
                    assert(c == 0 || c == 1 || c == 2 || c == 3);
                }
            }
        }
    }
    out
}

} // verus!
