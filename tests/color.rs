use prominence::{modify_width, rgb_to_hsl, Hsl, Ratio, Swatch};

fn ratio(num: u32, den: u32) -> Ratio {
    Ratio { num, den }
}

#[test]
fn modify_width_narrows_by_right_shift() {
    assert_eq!(modify_width(255, 8, 5), 31);
    assert_eq!(modify_width(200, 8, 5), 25);
    assert_eq!(modify_width(7, 8, 5), 0);
}

#[test]
fn modify_width_widens_by_left_shift() {
    assert_eq!(modify_width(31, 5, 8), 248);
    assert_eq!(modify_width(1, 5, 8), 8);
}

#[test]
fn modify_width_truncates_to_eight_bits() {
    assert_eq!(modify_width(224, 5, 8), 0);
    assert_eq!(modify_width(33, 5, 8), 8);
}

#[test]
fn modify_width_same_width_is_identity() {
    assert_eq!(modify_width(123, 5, 5), 123);
}

#[test]
fn hsl_of_pure_red() {
    let hsl = rgb_to_hsl((255, 0, 0));
    assert_eq!(
        hsl,
        Hsl { hue: ratio(0, 255), saturation: ratio(255, 255), lightness: ratio(255, 510) }
    );
}

#[test]
fn hsl_of_pure_green_and_blue() {
    assert_eq!(rgb_to_hsl((0, 255, 0)).hue, ratio(120 * 255, 255));
    assert_eq!(rgb_to_hsl((0, 0, 255)).hue, ratio(240 * 255, 255));
}

#[test]
fn hsl_of_grey_has_no_hue_or_saturation() {
    let hsl = rgb_to_hsl((128, 128, 128));
    assert_eq!(hsl.hue, ratio(0, 1));
    assert_eq!(hsl.saturation, ratio(0, 1));
    assert_eq!(hsl.lightness, ratio(256, 510));
}

#[test]
fn hsl_of_magenta_wraps_hue() {
    // 360 - 60 * 128 / 255 degrees
    assert_eq!(rgb_to_hsl((255, 0, 128)).hue, ratio(84120, 255));
}

#[test]
fn hsl_saturation_of_dark_and_light_colors() {
    // sum below 255: chroma over sum
    assert_eq!(rgb_to_hsl((100, 50, 50)).saturation, ratio(50, 150));
    // sum above 255: chroma over 510 - sum
    assert_eq!(rgb_to_hsl((200, 150, 120)).saturation, ratio(80, 190));
}

#[test]
fn swatch_accessors() {
    let s = Swatch::new((10, 20, 30), 7);
    assert_eq!(s.rgb(), (10, 20, 30));
    assert_eq!(s.population(), 7);
    assert_eq!(s.hsl(), rgb_to_hsl((10, 20, 30)));
}
