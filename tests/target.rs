use prominence::{Ratio, Target};

fn ratio(num: u32, den: u32) -> Ratio {
    Ratio { num, den }
}

#[test]
fn preset_bands() {
    let t = Target::light_vibrant();
    assert_eq!(t.minimum_saturation(), ratio(35, 100));
    assert_eq!(t.target_saturation(), ratio(100, 100));
    assert_eq!(t.maximum_saturation(), ratio(100, 100));
    assert_eq!(t.minimum_lightness(), ratio(55, 100));
    assert_eq!(t.target_lightness(), ratio(74, 100));
    assert_eq!(t.maximum_lightness(), ratio(100, 100));

    let t = Target::dark_muted();
    assert_eq!(t.minimum_saturation(), ratio(0, 100));
    assert_eq!(t.target_saturation(), ratio(30, 100));
    assert_eq!(t.maximum_saturation(), ratio(40, 100));
    assert_eq!(t.minimum_lightness(), ratio(0, 100));
    assert_eq!(t.target_lightness(), ratio(26, 100));
    assert_eq!(t.maximum_lightness(), ratio(45, 100));

    let t = Target::muted();
    assert_eq!(t.target_lightness(), ratio(50, 100));
    assert_eq!(t.minimum_lightness(), ratio(30, 100));
    assert_eq!(t.maximum_lightness(), ratio(70, 100));
}

#[test]
fn default_targets_in_fill_order() {
    let ids: Vec<u64> = Target::default_targets().iter().map(|t| t.id()).collect();
    assert_eq!(ids, vec![0, 1, 2, 3, 4, 5]);
    assert!(Target::default_targets()[1] == Target::vibrant());
}

#[test]
fn default_weights() {
    let t = Target::vibrant();
    assert_eq!(t.saturation_weight(), (24, 100));
    assert_eq!(t.lightness_weight(), (52, 100));
    assert_eq!(t.population_weight(), (24, 100));
    assert!(t.is_exclusive());
}

#[test]
fn normalizing_default_weights_changes_nothing() {
    let mut t = Target::vibrant();
    t.normalize_weights();
    assert_eq!(t.saturation_weight(), (24, 100));
    assert_eq!(t.lightness_weight(), (52, 100));
    assert_eq!(t.population_weight(), (24, 100));
}

#[test]
fn normalizing_weights_makes_them_sum_to_one() {
    let mut t = Target { weights: (1, 1, 2), weight_scale: 100, ..Target::new() };
    t.normalize_weights();
    assert_eq!(t.saturation_weight(), (1, 4));
    assert_eq!(t.lightness_weight(), (1, 4));
    assert_eq!(t.population_weight(), (2, 4));
}

#[test]
fn normalizing_zero_weights_leaves_them() {
    let mut t = Target { weights: (0, 0, 0), weight_scale: 100, ..Target::new() };
    t.normalize_weights();
    assert_eq!(t.saturation_weight(), (0, 100));
    assert_eq!(t.population_weight(), (0, 100));
}

#[test]
fn targets_are_equal_by_identity() {
    let changed = Target { weights: (0, 0, 0), is_exclusive: false, ..Target::vibrant() };
    assert!(changed == Target::vibrant());
    assert!(Target::vibrant() != Target::muted());
}

#[test]
fn new_targets_have_default_bands_and_fresh_identities() {
    let a = Target::new();
    let b = Target::default();
    assert!(a != b);
    assert_eq!(a.minimum_saturation(), ratio(0, 100));
    assert_eq!(a.target_saturation(), ratio(50, 100));
    assert_eq!(a.maximum_lightness(), ratio(100, 100));
    assert!(b.is_exclusive());
}
