use azimuth::{deliveries, Delivery, Distance, EventRouter, RayMarchOutcome, DEFAULT_THRESHOLD_BITS};

fn hits(ds: &[f32]) -> Vec<RayMarchOutcome> {
    ds.iter()
        .enumerate()
        .map(|(i, d)| RayMarchOutcome { candidate: i as u64, hit: true, distance: Distance { bits: d.to_bits() } })
        .collect()
}

#[test]
fn default_threshold_is_one_thousandth() {
    assert_eq!(DEFAULT_THRESHOLD_BITS, 0.001f32.to_bits());
    assert_eq!(EventRouter::new().threshold.bits, 0.001f32.to_bits());
}

#[test]
fn closest_beyond_threshold_wins() {
    let router = EventRouter::with_threshold(Distance { bits: 0.001f32.to_bits() });
    assert_eq!(router.select_target(&hits(&[0.0005, 0.5, 0.2])), Some(2));
}

#[test]
fn batch_without_target_is_dropped() {
    let router = EventRouter::new();
    let rs = hits(&[0.0005, 0.001, -3.0]);
    assert_eq!(router.select_target(&rs), None);
    assert_eq!(router.route(&rs, 3), Vec::<Delivery>::new());
}

#[test]
fn batch_goes_whole_to_target_in_order() {
    let router = EventRouter::new();
    let rs = hits(&[4.0, 0.3, 0.0]);
    let plan = router.route(&rs, 3);
    assert_eq!(
        plan,
        vec![
            Delivery { receiver: 1, event: 0 },
            Delivery { receiver: 1, event: 1 },
            Delivery { receiver: 1, event: 2 },
        ]
    );
}

#[test]
fn earliest_of_equal_targets_wins() {
    let router = EventRouter::new();
    assert_eq!(router.select_target(&hits(&[0.7, 0.4, 0.4])), Some(1));
}

#[test]
fn misses_never_receive_events() {
    let router = EventRouter::new();
    let rs = vec![
        RayMarchOutcome { candidate: 0, hit: false, distance: Distance { bits: 0.2f32.to_bits() } },
        RayMarchOutcome { candidate: 1, hit: true, distance: Distance { bits: 0.9f32.to_bits() } },
    ];
    assert_eq!(router.select_target(&rs), Some(1));
    assert_eq!(router.select_target(&Vec::new()), None);
}

#[test]
fn nan_threshold_excludes_nothing() {
    let router = EventRouter::with_threshold(Distance { bits: f32::NAN.to_bits() });
    assert_eq!(router.select_target(&hits(&[0.5, 0.0])), Some(1));
}

#[test]
fn deliveries_without_target_are_empty() {
    assert_eq!(deliveries(None, 5), Vec::<Delivery>::new());
    assert_eq!(deliveries(Some(3), 0), Vec::<Delivery>::new());
    assert_eq!(deliveries(Some(3), 1), vec![Delivery { receiver: 3, event: 0 }]);
}
