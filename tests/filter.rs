use prominence::{rgb_to_hsl, should_ignore_color, DefaultFilter, Filter};

fn allowed(rgb: (u8, u8, u8)) -> bool {
    DefaultFilter.is_allowed(rgb, rgb_to_hsl(rgb))
}

#[test]
fn default_filter_rejects_near_black() {
    assert!(!allowed((0, 0, 0)));
    // lightness 24 / 510 <= 0.05
    assert!(!allowed((12, 12, 12)));
    // lightness 26 / 510 > 0.05
    assert!(allowed((13, 13, 13)));
}

#[test]
fn default_filter_rejects_near_white() {
    assert!(!allowed((255, 255, 255)));
    // lightness 486 / 510 >= 0.95
    assert!(!allowed((243, 243, 243)));
    assert!(allowed((242, 242, 242)));
}

#[test]
fn default_filter_rejects_red_i_line() {
    // hue 22.5 degrees, saturation 80 / 190
    assert!(!allowed((200, 150, 120)));
    // hue about 23.5 degrees but fully saturated
    assert!(allowed((255, 100, 0)));
    // hue 0 degrees is outside the band
    assert!(allowed((200, 100, 100)));
}

#[test]
fn no_filters_accept_everything() {
    let none: Vec<DefaultFilter> = Vec::new();
    assert!(!should_ignore_color(&none, (0, 0, 0)));
    assert!(!should_ignore_color(&none, (255, 255, 255)));
}

#[test]
fn filters_are_a_conjunction() {
    let one = vec![DefaultFilter];
    let two = vec![DefaultFilter, DefaultFilter];
    assert!(should_ignore_color(&one, (0, 0, 0)));
    assert!(should_ignore_color(&two, (0, 0, 0)));
    assert!(!should_ignore_color(&one, (255, 0, 0)));
    assert!(!should_ignore_color(&two, (255, 0, 0)));
}
