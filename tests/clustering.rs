use palette_transfer::clustering::{
    assign_labels, cluster_mean_at, distance, farthest_point, k_means, k_means_init,
    nearest_centroid, nearest_distance, recentre,
};
use palette_transfer::TransferError;

#[test]
fn distance_is_squared_and_not_rooted() {
    assert_eq!(distance(&[0u16, 3, 4], &[0, 0, 0]), 25);
    assert_eq!(distance(&[0u16, 0, 0], &[0, 3, 4]), 25);
}

#[test]
fn distance_of_extreme_channels() {
    let a = [65535u16; 4];
    let b = [0u16; 4];
    assert_eq!(distance(&a, &b), 4 * 65535u128 * 65535);
}

#[test]
fn nearest_centroid_breaks_ties_to_lowest_index() {
    let cs = vec![[10u16], [0], [20]];
    assert_eq!(nearest_centroid(&cs, &[15]), 0);
    assert_eq!(nearest_centroid(&cs, &[1]), 1);
    assert_eq!(nearest_centroid(&cs, &[19]), 2);
}

#[test]
fn nearest_distance_is_minimum() {
    let cs = vec![[10u16], [0], [20]];
    assert_eq!(nearest_distance(&cs, &[13]), 9);
}

#[test]
fn farthest_point_prefers_last_on_tie() {
    let pts = vec![[0u16], [5], [10]];
    let seeds = vec![[5u16]];
    assert_eq!(farthest_point(&pts, &seeds), 2);
}

#[test]
fn k_means_init_starts_from_middle_and_reverses() {
    let pts = vec![[0u16], [10], [3]];
    assert_eq!(k_means_init::<2, 1>(&pts), vec![[0], [10]]);
    assert_eq!(k_means_init::<1, 1>(&pts), vec![[10]]);
}

#[test]
fn k_means_init_three_seeds() {
    let pts = vec![[0u16], [5], [10], [100]];
    // seeds in order of choice: 10 (the middle), 100, then 0
    assert_eq!(k_means_init::<3, 1>(&pts), vec![[0], [100], [10]]);
}

#[test]
fn assign_and_recentre_round_down_means() {
    let pts = vec![[1u16, 0], [2, 5], [100, 100]];
    let cs = vec![[0u16, 0], [90, 90]];
    let labels = assign_labels(&pts, &cs);
    assert_eq!(labels, vec![0, 0, 1]);
    assert_eq!(recentre(&pts, &labels, 3), vec![[1, 2], [100, 100], [0, 0]]);
    assert_eq!(cluster_mean_at(&pts, &labels, 0, 1), 2);
}

#[test]
fn k_means_refuses_empty_input() {
    let pts: Vec<[u16; 4]> = vec![];
    assert!(matches!(k_means::<3, 4, 10>(&pts), Err(TransferError::EmptyInput)));
}

#[test]
fn k_means_refuses_zero_clusters() {
    let pts = vec![[1u16, 2, 3, 4]];
    assert!(matches!(k_means::<0, 4, 10>(&pts), Err(TransferError::ShapeMismatch)));
}

#[test]
fn k_means_without_iterations_returns_seeds() {
    let pts = vec![[0u16], [10], [3]];
    let r = k_means::<2, 1, 0>(&pts).unwrap();
    assert_eq!(r.means, vec![[0], [10]]);
    assert!(r.labels.is_empty());
}

#[test]
fn k_means_mean_is_rounded_down() {
    let pts = vec![[1u16], [2]];
    let r = k_means::<1, 1, 3>(&pts).unwrap();
    assert_eq!(r.means, vec![[1]]);
    assert_eq!(r.labels, vec![0, 0]);
}

#[test]
fn k_means_two_groups() {
    let pts = vec![[0u16, 0], [2, 0], [100, 100], [102, 100], [1, 1]];
    let r = k_means::<2, 2, 10>(&pts).unwrap();
    // middle point is [100,100]; then farthest is [0,0]; reversed: [[0,0],[100,100]]
    assert_eq!(r.labels, vec![0, 0, 1, 1, 0]);
    assert_eq!(r.means, vec![[1, 0], [101, 100]]);
}

fn jittered_clusters() -> (Vec<[u16; 4]>, Vec<usize>) {
    // fixed point with 1.0 == 32768, shifted by `base` so that jitter may go
    // either way around a centre at 0
    let s: i64 = 32768;
    let base: i64 = 4096;
    let centres = [[0, 0, 0, s], [s, s, s, s], [0, s, 0, s]];
    let jitter_max = s / 20;
    let mut state: u64 = 0x2545_f491_4f6c_dd1d;
    let mut next = move || {
        state = state.wrapping_mul(6364136223846793005).wrapping_add(1442695040888963407);
        ((state >> 33) as i64) % (2 * jitter_max + 1) - jitter_max
    };
    let mut pts = Vec::new();
    let mut truth = Vec::new();
    for (g, c) in centres.iter().enumerate() {
        for _ in 0..100 {
            let mut p = [0u16; 4];
            for d in 0..4 {
                p[d] = (base + c[d] + next()) as u16;
            }
            pts.push(p);
            truth.push(g);
        }
    }
    (pts, truth)
}

#[test]
fn k_means_is_reproducible() {
    let (pts, _) = jittered_clusters();
    let a = k_means::<3, 4, 10>(&pts).unwrap();
    let b = k_means::<3, 4, 10>(&pts).unwrap();
    assert_eq!(a.means, b.means);
    assert_eq!(a.labels, b.labels);
}

#[test]
fn k_means_recovers_separated_clusters() {
    let (pts, truth) = jittered_clusters();
    let r = k_means::<3, 4, 10>(&pts).unwrap();
    let perms = [[0, 1, 2], [0, 2, 1], [1, 0, 2], [1, 2, 0], [2, 0, 1], [2, 1, 0]];
    let best = perms
        .iter()
        .map(|perm| {
            truth
                .iter()
                .zip(r.labels.iter())
                .filter(|(t, l)| perm[**t] == **l)
                .count()
        })
        .max()
        .unwrap();
    assert!(best * 100 >= 95 * pts.len(), "only {} of {} consistent", best, pts.len());
}

#[test]
fn k_means_empty_clusters_reset_to_origin() {
    let pts = vec![[7u16, 7, 7, 7]; 5];
    let r = k_means::<3, 4, 10>(&pts).unwrap();
    assert_eq!(r.means, vec![[7, 7, 7, 7], [0, 0, 0, 0], [0, 0, 0, 0]]);
    assert_eq!(r.labels, vec![0; 5]);
}
