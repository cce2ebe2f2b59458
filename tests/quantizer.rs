use prominence::histogram::build_histogram;
use prominence::vbox::Vbox;
use prominence::{ColorCutQuantizer, DefaultFilter, Swatch};

fn quantize(pixels: Vec<(u8, u8, u8)>, max_colors: usize, filters: Vec<DefaultFilter>) -> Vec<Swatch> {
    ColorCutQuantizer::new(pixels, max_colors, filters).get_quantized_colors()
}

fn summary(swatches: &[Swatch]) -> Vec<((u8, u8, u8), u32)> {
    swatches.iter().map(|s| (s.rgb(), s.population())).collect()
}

#[test]
fn histogram_counts_every_pixel() {
    let pixels = vec![(255, 0, 0), (250, 3, 4), (0, 0, 0), (10, 200, 30), (255, 255, 255)];
    let counts = build_histogram(&pixels);
    assert_eq!(counts.len(), 32768);
    assert_eq!(counts.iter().map(|&c| c as usize).sum::<usize>(), pixels.len());
    // (255, 0, 0) and (250, 3, 4) share the slot of (31, 0, 0)
    assert_eq!(counts[31 * 1024], 2);
    assert_eq!(counts[0], 1);
}

#[test]
fn single_color_image_gives_one_swatch() {
    let swatches = quantize(vec![(255, 0, 0); 9], 16, vec![DefaultFilter]);
    assert_eq!(summary(&swatches), vec![((248, 0, 0), 9)]);
}

#[test]
fn black_and_white_are_filtered_out() {
    let swatches = quantize(vec![(0, 0, 0), (255, 255, 255)], 16, vec![DefaultFilter]);
    assert!(swatches.is_empty());
}

#[test]
fn empty_input_gives_no_swatches() {
    let swatches = quantize(Vec::new(), 16, vec![DefaultFilter]);
    assert!(swatches.is_empty());
}

#[test]
fn few_colors_give_one_swatch_each_in_key_order() {
    let pixels = vec![(255, 0, 0), (0, 0, 255), (255, 0, 0), (0, 255, 0)];
    let swatches = quantize(pixels, 16, vec![DefaultFilter]);
    assert_eq!(
        summary(&swatches),
        vec![((0, 0, 248), 1), ((0, 248, 0), 1), ((248, 0, 0), 2)]
    );
}

#[test]
fn one_color_budget_averages_everything() {
    let mut pixels = vec![(200, 0, 0); 10];
    pixels.extend(vec![(0, 0, 200); 10]);
    let swatches = quantize(pixels, 1, vec![DefaultFilter]);
    // means 250 / 20 = 12 on red and blue, widened to 96
    assert_eq!(summary(&swatches), vec![((96, 0, 96), 20)]);
}

#[test]
fn boxes_are_cut_at_the_population_midpoint() {
    let pixels = vec![(40, 0, 0), (80, 0, 0), (160, 0, 0)];
    let swatches = quantize(pixels, 2, Vec::new());
    assert_eq!(summary(&swatches), vec![((40, 0, 0), 1), ((120, 0, 0), 2)]);
}

#[test]
fn never_more_swatches_than_requested() {
    let mut pixels = Vec::new();
    for r in 0..8u8 {
        for g in 0..8u8 {
            pixels.push((r * 32, g * 32, 128));
        }
    }
    for k in 1..10usize {
        let swatches = quantize(pixels.clone(), k, Vec::new());
        assert!(swatches.len() <= k);
        let total: u32 = swatches.iter().map(|s| s.population()).sum();
        assert_eq!(total, 64);
    }
}

#[test]
fn exactly_one_swatch_per_entry_within_budget() {
    let pixels = vec![(40, 0, 0), (80, 0, 0), (160, 0, 0)];
    assert_eq!(quantize(pixels.clone(), 3, Vec::new()).len(), 3);
    assert_eq!(quantize(pixels, 4, Vec::new()).len(), 3);
}

#[test]
fn quantizing_twice_gives_the_same_swatches() {
    let mut pixels = Vec::new();
    for i in 0..200u32 {
        pixels.push(((i * 7 % 256) as u8, (i * 13 % 256) as u8, (i * 29 % 256) as u8));
    }
    let first = quantize(pixels.clone(), 5, vec![DefaultFilter]);
    let second = quantize(pixels, 5, vec![DefaultFilter]);
    assert_eq!(first, second);
}

#[test]
fn split_conserves_entries_and_population() {
    let vbox = Vbox::new(vec![((5, 0, 0), 1), ((10, 0, 0), 1), ((20, 0, 0), 1)]);
    let (left, right) = vbox.split_box();
    assert_eq!(left.colors, vec![((5, 0, 0), 1)]);
    assert_eq!(right.colors, vec![((10, 0, 0), 1), ((20, 0, 0), 1)]);
    assert_eq!(left.population + right.population, 3);
}

#[test]
fn split_keeps_both_halves_non_empty() {
    let vbox = Vbox::new(vec![((0, 0, 0), 10), ((0, 5, 0), 1), ((0, 9, 0), 1)]);
    assert_eq!(vbox.volume(), 10);
    let (left, right) = vbox.split_box();
    assert_eq!(left.colors.len(), 1);
    assert_eq!(right.colors.len(), 2);
    assert_eq!((left.population, right.population), (10, 2));
    assert_eq!(right.green_range, (5, 9));
}

#[test]
fn split_sorts_along_the_longest_channel() {
    let vbox = Vbox::new(vec![((1, 9, 0), 1), ((2, 1, 0), 1), ((3, 5, 0), 1), ((4, 3, 0), 1)]);
    let (left, right) = vbox.split_box();
    // green spans 8, red 3: sorted by green, the midpoint 2 is reached at index 1
    assert_eq!(left.colors, vec![((2, 1, 0), 1)]);
    assert_eq!(right.colors, vec![((4, 3, 0), 1), ((3, 5, 0), 1), ((1, 9, 0), 1)]);
}
