use prominence::{Palette, PaletteBuilder, Swatch, Target};

#[test]
fn single_red_image_fills_the_vibrant_target() {
    let palette = PaletteBuilder::from_pixels(vec![(255, 0, 0); 4]).generate();
    let swatches: Vec<((u8, u8, u8), u32)> =
        palette.swatches().iter().map(|s| (s.rgb(), s.population())).collect();
    assert_eq!(swatches, vec![((248, 0, 0), 4)]);
    assert_eq!(palette.vibrant_color(), Some((248, 0, 0)));
    assert_eq!(palette.vibrant_swatch(), Some(Swatch::new((248, 0, 0), 4)));
    assert_eq!(palette.light_vibrant_color(), None);
    assert_eq!(palette.dark_vibrant_color(), None);
    assert_eq!(palette.light_muted_color(), None);
    assert_eq!(palette.muted_color(), None);
    assert_eq!(palette.dark_muted_color(), None);
    assert_eq!(palette.most_prominent_color(), Some((248, 0, 0)));
}

#[test]
fn black_and_white_image_selects_nothing() {
    let palette = PaletteBuilder::from_pixels(vec![(0, 0, 0), (255, 255, 255)]).generate();
    assert!(palette.swatches().is_empty());
    assert_eq!(palette.targets().len(), 6);
    assert_eq!(palette.light_vibrant_swatch(), None);
    assert_eq!(palette.vibrant_swatch(), None);
    assert_eq!(palette.dark_vibrant_swatch(), None);
    assert_eq!(palette.light_muted_swatch(), None);
    assert_eq!(palette.muted_swatch(), None);
    assert_eq!(palette.dark_muted_swatch(), None);
    assert_eq!(palette.most_prominent_color(), None);
}

#[test]
fn muted_and_dark_targets_get_their_colors() {
    let mut pixels = vec![(96, 104, 120); 5];
    pixels.extend(vec![(0, 0, 96); 3]);
    let palette = PaletteBuilder::from_pixels(pixels).generate();
    // (96, 104, 120): saturation 24 / 216, lightness 216 / 510; muted comes
    // before dark muted, which then finds the colour taken
    assert_eq!(palette.muted_color(), Some((96, 104, 120)));
    assert_eq!(palette.dark_muted_color(), None);
    // (0, 0, 96): saturation 1, lightness 96 / 510
    assert_eq!(palette.dark_vibrant_color(), Some((0, 0, 96)));
    assert_eq!(palette.most_prominent_color(), Some((96, 104, 120)));
}

#[test]
fn overlapping_targets_never_share_a_color() {
    let first = Target::new();
    let second = Target::new();
    let mut pixels = vec![(255, 0, 0); 3];
    pixels.push((0, 0, 255));
    let palette = PaletteBuilder::from_pixels(pixels)
        .clear_targets()
        .add_target(first)
        .add_target(second)
        .generate();
    assert_eq!(palette.get_swatch_for_target(first).map(|s| s.rgb()), Some((248, 0, 0)));
    assert_eq!(palette.get_swatch_for_target(second).map(|s| s.rgb()), Some((0, 0, 248)));
}

#[test]
fn third_overlapping_target_finds_nothing_left() {
    let targets = [Target::new(), Target::new(), Target::new()];
    let palette = PaletteBuilder::from_pixels(vec![(255, 0, 0), (0, 0, 255)])
        .clear_targets()
        .add_target(targets[0])
        .add_target(targets[1])
        .add_target(targets[2])
        .generate();
    let a = palette.get_swatch_for_target(targets[0]).unwrap();
    let b = palette.get_swatch_for_target(targets[1]).unwrap();
    assert_ne!(a.rgb(), b.rgb());
    assert_eq!(palette.get_swatch_for_target(targets[2]), None);
}

#[test]
fn equal_scores_go_to_the_first_swatch() {
    let mut pixels = vec![(255, 0, 0); 2];
    pixels.extend(vec![(0, 255, 0); 2]);
    let palette = PaletteBuilder::from_pixels(pixels).generate();
    // green comes first in histogram order and scores the same as red
    assert_eq!(palette.vibrant_color(), Some((0, 248, 0)));
}

#[test]
fn adding_a_present_target_keeps_the_list() {
    let builder = PaletteBuilder::from_pixels(Vec::new()).add_target(Target::vibrant());
    assert_eq!(builder.targets.len(), 6);
    let builder = builder.add_target(Target::new());
    assert_eq!(builder.targets.len(), 7);
}

#[test]
fn missing_target_has_no_swatch() {
    let palette = PaletteBuilder::from_pixels(vec![(255, 0, 0); 4]).clear_targets().generate();
    assert_eq!(palette.vibrant_swatch(), None);
    assert!(palette.targets().is_empty());
}

#[test]
fn most_prominent_color_takes_the_last_on_a_tie() {
    let palette = Palette {
        swatches: vec![Swatch::new((1, 2, 3), 5), Swatch::new((4, 5, 6), 5), Swatch::new((7, 8, 9), 2)],
        targets: Vec::new(),
        selected: Vec::new(),
    };
    assert_eq!(palette.most_prominent_color(), Some((4, 5, 6)));
}

#[test]
fn maximum_color_count_limits_the_swatches() {
    let mut pixels = Vec::new();
    for r in 0..6u8 {
        pixels.push((40 + r * 30, 60, 200));
    }
    let palette = PaletteBuilder::from_pixels(pixels).maximum_color_count(2).generate();
    assert!(palette.swatches().len() <= 2);
}

#[test]
fn generate_normalizes_the_targets() {
    let custom = Target { weights: (1, 1, 2), weight_scale: 100, ..Target::new() };
    let palette = PaletteBuilder::from_pixels(vec![(255, 0, 0)]).add_target(custom).generate();
    assert_eq!(palette.targets()[6].population_weight(), (2, 4));
}
