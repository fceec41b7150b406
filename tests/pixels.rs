use palette_transfer::pixel::{bytes_from_pixels, pixels_from_bytes, threshold_alpha, threshold_pixels};
use palette_transfer::TransferError;

#[test]
fn threshold_alpha_below_threshold_is_cleared() {
    assert_eq!(threshold_alpha::<200>([10, 20, 30, 150]), [0, 0, 0, 0]);
}

#[test]
fn threshold_alpha_above_threshold_is_kept() {
    assert_eq!(threshold_alpha::<200>([10, 20, 30, 210]), [10, 20, 30, 210]);
}

#[test]
fn threshold_alpha_at_threshold_is_kept() {
    assert_eq!(threshold_alpha::<127>([1, 2, 3, 127]), [1, 2, 3, 127]);
    assert_eq!(threshold_alpha::<127>([1, 2, 3, 126]), [0, 0, 0, 0]);
}

#[test]
fn threshold_alpha_zero_threshold_keeps_everything() {
    assert_eq!(threshold_alpha::<0>([9, 8, 7, 0]), [9, 8, 7, 0]);
}

#[test]
fn threshold_pixels_maps_each_pixel() {
    let px = vec![[1, 2, 3, 255], [4, 5, 6, 10], [7, 8, 9, 200]];
    assert_eq!(
        threshold_pixels::<200>(&px),
        vec![[1, 2, 3, 255], [0, 0, 0, 0], [7, 8, 9, 200]]
    );
}

#[test]
fn pixels_from_bytes_splits_in_order() {
    let data = vec![1, 2, 3, 4, 5, 6, 7, 8];
    assert_eq!(pixels_from_bytes(&data), Ok(vec![[1, 2, 3, 4], [5, 6, 7, 8]]));
}

#[test]
fn pixels_from_bytes_refuses_partial_pixel() {
    let data = vec![1, 2, 3, 4, 5, 6, 7];
    assert_eq!(pixels_from_bytes(&data), Err(TransferError::ShapeMismatch));
}

#[test]
fn pixels_from_bytes_empty_buffer() {
    assert_eq!(pixels_from_bytes(&vec![]), Ok(vec![]));
}

#[test]
fn bytes_from_pixels_interleaves() {
    let px = vec![[1, 2, 3, 4], [250, 251, 252, 253]];
    assert_eq!(bytes_from_pixels(&px), vec![1, 2, 3, 4, 250, 251, 252, 253]);
}

#[test]
fn bytes_round_trip_through_pixels() {
    let data: Vec<u8> = (0..40u8).collect();
    let px = pixels_from_bytes(&data).unwrap();
    assert_eq!(px.len(), 10);
    assert_eq!(bytes_from_pixels(&px), data);
}
