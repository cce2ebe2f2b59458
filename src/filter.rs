use vstd::prelude::*;
use crate::color::{hsl_of, rgb_to_hsl, Hsl, Ratio, Rgb};

verus! {

/// A predicate that decides whether a colour may take part in quantization.
///
/// Filters prune histogram colours before the boxes are cut and averaged
/// swatches afterwards. The colour is handed over both as sRGB and as HSL.
pub trait Filter {
    /// Whether this filter lets the colour through.
    spec fn allows(&self, rgb: Rgb, hsl: Hsl) -> bool;

    /// Returns whether the colour is allowed.
    fn is_allowed(&self, rgb: Rgb, hsl: Hsl) -> (r: bool)
        ensures
            r == self.allows(rgb, hsl),
    ;
}

/// Rejects colours close to black, close to white, and the pale reds and
/// oranges that lie near the red end of the I line (skin tones).
#[derive(Clone, Copy, Debug)]
pub struct DefaultFilter;

/// Lightness at most 0.05.
pub open spec fn near_black(l: Ratio) -> bool {
    20 * l.num <= l.den
}

/// Lightness at least 0.95.
pub open spec fn near_white(l: Ratio) -> bool {
    20 * l.num >= 19 * l.den
}

/// Hue in [10, 37] degrees with saturation at most 0.82.
pub open spec fn near_red_i_line(h: Ratio, s: Ratio) -> bool {
    10 * h.den <= h.num && h.num <= 37 * h.den && 100 * s.num <= 82 * s.den
}

fn is_black(l: Ratio) -> (r: bool)
    ensures
        r == near_black(l),
{
    20 * (l.num as u64) <= l.den as u64
}

fn is_white(l: Ratio) -> (r: bool)
    ensures
        r == near_white(l),
{
    20 * (l.num as u64) >= 19 * (l.den as u64)
}

fn is_near_red_i_line(h: Ratio, s: Ratio) -> (r: bool)
    ensures
        r == near_red_i_line(h, s),
{
    10 * (h.den as u64) <= h.num as u64 && h.num as u64 <= 37 * (h.den as u64) && 100 * (
    s.num as u64) <= 82 * (s.den as u64)
}

impl Filter for DefaultFilter {
    open spec fn allows(&self, rgb: Rgb, hsl: Hsl) -> bool {
        !near_black(hsl.lightness) && !near_white(hsl.lightness) && !near_red_i_line(
            hsl.hue,
            hsl.saturation,
        )
    }

    fn is_allowed(&self, rgb: Rgb, hsl: Hsl) -> (r: bool) {
        !is_black(hsl.lightness) && !is_white(hsl.lightness) && !is_near_red_i_line(
            hsl.hue,
            hsl.saturation,
        )
    }
}

/// Every filter of the list lets the colour through; an empty list lets everything through.
pub open spec fn allowed_by_all<F: Filter>(filters: Seq<F>, rgb: Rgb) -> bool {
    forall|i: int| 0 <= i < filters.len() ==> #[trigger] filters[i].allows(rgb, hsl_of(rgb))
}

/// Returns whether some filter of the list rejects the colour.
pub fn should_ignore_color<F: Filter>(filters: &Vec<F>, rgb: Rgb) -> (r: bool)
    ensures
        r == !allowed_by_all(filters@, rgb),
{
    let hsl = rgb_to_hsl(rgb);
    let mut i: usize = 0;
    while i < filters.len()
        invariant
            0 <= i <= filters.len(),
            hsl == hsl_of(rgb),
            forall|j: int| 0 <= j < i ==> #[trigger] filters@[j].allows(rgb, hsl_of(rgb)),
        decreases filters.len() - i,
    {
        if !filters[i].is_allowed(rgb, hsl) {
            return true;
        }
        i += 1;
    }
    false
}

} // verus!
