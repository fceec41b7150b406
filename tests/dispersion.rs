use palette_transfer::dispersion::{channel_range, floor_sqrt, k_means_std, random_centroids, spreads};
use palette_transfer::TransferError;

#[test]
fn floor_sqrt_rounds_down() {
    assert_eq!(floor_sqrt(0), 0);
    assert_eq!(floor_sqrt(24), 4);
    assert_eq!(floor_sqrt(25), 5);
    assert_eq!(floor_sqrt(65535 * 65535), 65535);
}

#[test]
fn channel_range_finds_extremes() {
    let pts = vec![[5u16, 9], [2, 30], [8, 1]];
    assert_eq!(channel_range(&pts, 0), (2, 8));
    assert_eq!(channel_range(&pts, 1), (1, 30));
}

#[test]
fn random_centroids_stay_in_range() {
    let pts = vec![[10u16], [20]];
    assert_eq!(random_centroids::<2, 1>(&pts, &vec![5, 23]), vec![[15], [11]]);
}

#[test]
fn spreads_divide_by_all_points() {
    let pts = vec![[10u16], [20], [100]];
    let labels = vec![0, 0, 1];
    let cs = vec![[15u16], [100]];
    // cluster 0: (25 + 25) / 3 = 16 -> 4; cluster 1: 0
    assert_eq!(spreads(&pts, &labels, &cs), vec![[4], [0]]);
}

#[test]
fn k_means_std_refuses_empty_input() {
    let pts: Vec<[u16; 4]> = vec![];
    assert!(matches!(k_means_std::<2, 4, 10>(&pts, &vec![0; 8]), Err(TransferError::EmptyInput)));
}

#[test]
fn k_means_std_refuses_wrong_number_of_draws() {
    let pts = vec![[1u16, 2, 3, 4]];
    assert!(matches!(k_means_std::<2, 4, 10>(&pts, &vec![0; 7]), Err(TransferError::ShapeMismatch)));
    assert!(matches!(k_means_std::<0, 4, 10>(&pts, &vec![]), Err(TransferError::ShapeMismatch)));
}

#[test]
fn k_means_std_without_iterations() {
    let pts = vec![[10u16], [20]];
    let r = k_means_std::<1, 1, 0>(&pts, &vec![5]).unwrap();
    assert_eq!(r.means, vec![[15]]);
    assert_eq!(r.stds, vec![[0]]);
}

#[test]
fn k_means_std_one_cluster() {
    let pts = vec![[10u16], [20]];
    let r = k_means_std::<1, 1, 1>(&pts, &vec![5]).unwrap();
    assert_eq!(r.means, vec![[15]]);
    assert_eq!(r.stds, vec![[5]]);
}

#[test]
fn k_means_std_same_draws_same_result() {
    let pts = vec![[0u16, 0], [3, 4], [100, 90], [90, 100], [50, 50]];
    let draws = vec![17, 3, 99, 1234];
    let a = k_means_std::<2, 2, 20>(&pts, &draws).unwrap();
    let b = k_means_std::<2, 2, 20>(&pts, &draws).unwrap();
    assert_eq!(a.means, b.means);
    assert_eq!(a.stds, b.stds);
}
