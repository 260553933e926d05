use azimuth::{resolve_hits, Distance, HitSet, PassGuard, RayMarchOutcome};

fn outcome(candidate: u64, hit: bool, d: f32) -> RayMarchOutcome {
    RayMarchOutcome { candidate, hit, distance: Distance { bits: d.to_bits() } }
}

fn all_hits(ds: &[f32]) -> Vec<RayMarchOutcome> {
    ds.iter().enumerate().map(|(i, d)| outcome(i as u64, true, *d)).collect()
}

#[test]
fn ties_at_least_distance_all_win() {
    let rs = all_hits(&[3.0, 1.0, 1.0, 5.0]);
    assert_eq!(resolve_hits(&rs), vec![1, 2]);
}

#[test]
fn winners_same_in_any_completion_order() {
    let rs = all_hits(&[3.0, 1.0, 1.0, 5.0]);
    let orders: [[usize; 4]; 4] = [[3, 2, 1, 0], [1, 0, 3, 2], [2, 3, 0, 1], [0, 2, 3, 1]];
    for order in orders {
        let permuted: Vec<RayMarchOutcome> = order.iter().map(|i| rs[*i]).collect();
        assert_eq!(resolve_hits(&permuted), vec![1, 2]);
    }
}

#[test]
fn ties_come_out_in_candidate_order() {
    let rs = vec![outcome(7, true, 1.0), outcome(2, true, 1.0), outcome(5, true, 1.0), outcome(0, true, 3.0)];
    assert_eq!(resolve_hits(&rs), vec![2, 5, 7]);
}

#[test]
fn a_candidate_is_listed_once() {
    let rs = vec![outcome(3, true, 1.0), outcome(1, true, 1.0), outcome(3, true, 1.0)];
    assert_eq!(resolve_hits(&rs), vec![1, 3]);
}

#[test]
fn no_hit_gives_empty_ordering() {
    let rs = vec![outcome(0, false, 1.0), outcome(1, false, 0.5)];
    assert_eq!(resolve_hits(&rs), Vec::<u64>::new());
    assert_eq!(resolve_hits(&Vec::new()), Vec::<u64>::new());
}

#[test]
fn misses_are_ignored_even_when_closer() {
    let rs = vec![outcome(0, true, 2.0), outcome(1, false, 0.1), outcome(2, true, 4.0)];
    assert_eq!(resolve_hits(&rs), vec![0]);
}

#[test]
fn closer_hit_replaces_earlier_ties() {
    let rs = all_hits(&[2.0, 2.0, 0.5]);
    assert_eq!(resolve_hits(&rs), vec![2]);
}

#[test]
fn nan_distance_is_ignored() {
    let rs = vec![outcome(0, true, f32::NAN), outcome(1, true, 7.0)];
    assert_eq!(resolve_hits(&rs), vec![1]);
}

#[test]
fn zero_and_negative_zero_tie() {
    let rs = vec![outcome(4, true, 0.0), outcome(9, true, -0.0)];
    assert_eq!(resolve_hits(&rs), vec![4, 9]);
}

#[test]
fn negative_distances_order_below_positive() {
    let rs = all_hits(&[0.25, -1.5, -0.5]);
    assert_eq!(resolve_hits(&rs), vec![1]);
}

#[test]
fn hit_set_observes_incrementally() {
    let mut set = HitSet::new();
    set.observe(outcome(5, true, 3.0));
    assert_eq!(set.winners, vec![5]);
    set.observe(outcome(2, true, 3.0));
    assert_eq!(set.winners, vec![2, 5]);
    set.observe(outcome(7, true, 1.0));
    assert_eq!(set.winners, vec![7]);
    set.observe(outcome(8, true, 9.0));
    assert_eq!(set.winners, vec![7]);
}

#[test]
fn distance_keys_follow_float_order() {
    let ds: [f32; 7] = [f32::NEG_INFINITY, -2.0, -0.5, 0.0, 1e-30, 0.75, f32::INFINITY];
    for w in ds.windows(2) {
        let a = Distance { bits: w[0].to_bits() }.key().unwrap();
        let b = Distance { bits: w[1].to_bits() }.key().unwrap();
        assert!(a < b);
    }
    assert_eq!(Distance { bits: (-0.0f32).to_bits() }.key(), Some(0));
    assert_eq!(Distance { bits: f32::NAN.to_bits() }.key(), None);
}

#[test]
fn pass_guard_supersedes_older_passes() {
    let mut guard = PassGuard::new();
    let first = guard.begin();
    assert!(guard.may_publish(first));
    let second = guard.begin();
    assert_ne!(first, second);
    assert!(!guard.may_publish(first));
    assert!(guard.may_publish(second));
}

#[test]
fn pass_guard_wraps_at_the_top() {
    let mut guard = PassGuard { generation: u64::MAX };
    assert_eq!(guard.begin(), 0);
}
