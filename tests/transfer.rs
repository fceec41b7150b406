use palette_transfer::clustering::k_means;
use palette_transfer::transfer::{match_statistics, mean_shift, mean_shift_variants};
use palette_transfer::TransferError;

#[test]
fn mean_shift_moves_colour_keeps_alpha() {
    let px = vec![[100u16, 100, 100, 200]];
    let out = mean_shift(&px, &vec![0], &vec![[50, 60, 70, 0]], &[10, 20, 30, 99]).unwrap();
    assert_eq!(out, vec![[60, 60, 60, 200]]);
}

#[test]
fn mean_shift_may_go_negative() {
    let px = vec![[0u16, 0, 0, 1]];
    let out = mean_shift(&px, &vec![0], &vec![[65535, 0, 0, 0]], &[0, 65535, 0, 0]).unwrap();
    assert_eq!(out, vec![[-65535, 65535, 0, 1]]);
}

#[test]
fn mean_shift_refuses_label_out_of_range() {
    let px = vec![[1u16, 1, 1, 1]];
    assert_eq!(
        mean_shift(&px, &vec![1], &vec![[0, 0, 0, 0]], &[0, 0, 0, 0]),
        Err(TransferError::ShapeMismatch)
    );
}

#[test]
fn mean_shift_refuses_length_mismatch() {
    let px = vec![[1u16, 1, 1, 1]];
    assert_eq!(
        mean_shift(&px, &vec![0, 0], &vec![[0, 0, 0, 0]], &[0, 0, 0, 0]),
        Err(TransferError::ShapeMismatch)
    );
}

#[test]
fn mean_shift_variants_one_per_source_mean() {
    let px = vec![[10u16, 10, 10, 5], [20, 20, 20, 6]];
    let dst = k_means::<1, 4, 3>(&px).unwrap();
    assert_eq!(dst.means, vec![[15, 15, 15, 5]]);
    let outs = mean_shift_variants(&px, &dst, &vec![[100, 0, 0, 0], [0, 100, 0, 0]]).unwrap();
    assert_eq!(
        outs,
        vec![
            vec![[95, -5, -5, 5], [105, 5, 5, 6]],
            vec![[-5, 95, -5, 5], [5, 105, 5, 6]],
        ]
    );
}

#[test]
fn match_statistics_rescales_offsets() {
    let px = vec![[100u16, 40, 7, 33]];
    let out = match_statistics(&px, &[1000, 1000, 1000, 0], &[20, 20, 20, 0], &[50, 50, 50, 0], &[10, 10, 0, 0]);
    assert_eq!(out, vec![[1100, 980, 1000, 33]]);
}

#[test]
fn match_statistics_truncates_toward_zero() {
    let px = vec![[10u16, 0, 0, 0], [0, 0, 0, 0]];
    let out = match_statistics(&px, &[100, 0, 0, 0], &[1, 1, 1, 1], &[5, 0, 0, 0], &[2, 1, 1, 1]);
    // (10-5)*1/2 = 2; (0-5)*1/2 -> -2
    assert_eq!(out[0][0], 102);
    assert_eq!(out[1][0], 98);
}

#[test]
fn end_to_end_transfer_moves_grey_towards_red() {
    let scale = 257u16;
    let src: Vec<[u16; 4]> = vec![[255, 0, 0, 255], [0, 0, 255, 255]]
        .into_iter()
        .map(|p: [u16; 4]| p.map(|c| c * scale))
        .collect();
    let dst: Vec<[u16; 4]> = vec![[128u16, 128, 128, 255]; 2]
        .into_iter()
        .map(|p| p.map(|c| c * scale))
        .collect();
    let s = k_means::<1, 4, 10>(&src).unwrap();
    let d = k_means::<1, 4, 10>(&dst).unwrap();
    let outs = mean_shift_variants(&dst, &d, &s.means).unwrap();
    assert_eq!(outs.len(), 1);
    let red = [65535i64, 0, 0];
    let dist = |p: [i64; 3]| -> i64 { (0..3).map(|i| (p[i] - red[i]) * (p[i] - red[i])).sum() };
    for (o, g) in outs[0].iter().zip(dst.iter()) {
        assert_eq!([o[0], o[1], o[2]], [s.means[0][0] as i32, s.means[0][1] as i32, s.means[0][2] as i32]);
        assert_eq!(o[3], 65535);
        let moved = dist([o[0] as i64, o[1] as i64, o[2] as i64]);
        let before = dist([g[0] as i64, g[1] as i64, g[2] as i64]);
        assert!(moved < before);
    }
}

#[test]
fn single_cluster_shift_mean_is_source_mean() {
    let dst = vec![[0u16, 9, 3, 1], [1, 9, 4, 2], [5, 2, 4, 3]];
    let d = k_means::<1, 4, 10>(&dst).unwrap();
    assert_eq!(d.means, vec![[2, 6, 3, 2]]);
    let src_mean = [1000u16, 2000, 3000, 4000];
    let out = mean_shift(&dst, &d.labels, &d.means, &src_mean).unwrap();
    for c in 0..3 {
        let sum: i64 = out.iter().map(|p| p[c] as i64).sum();
        assert_eq!(sum.div_euclid(out.len() as i64), src_mean[c] as i64);
    }
    assert_eq!(out.iter().map(|p| p[3]).collect::<Vec<_>>(), vec![1, 2, 3]);
}
