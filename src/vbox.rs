use vstd::prelude::*;
use crate::color::{modify_width, requantized, Rgb, QUANTIZE_WORD_MAX, QUANTIZE_WORD_WIDTH};
use crate::histogram::ColorCount;
use crate::swatch::Swatch;

verus! {

/// One of the three colour channels.
#[derive(Clone, Copy, Debug, PartialEq, Eq, Structural)]
pub enum Component {
    Red,
    Green,
    Blue,
}

pub open spec fn channel(c: Rgb, d: Component) -> u8 {
    match d {
        Component::Red => c.0,
        Component::Green => c.1,
        Component::Blue => c.2,
    }
}

/// The smallest value of channel `d` among the entries; the histogram's
/// largest value for no entries.
pub open spec fn range_min(s: Seq<ColorCount>, d: Component) -> u8
    decreases s.len(),
{
    if s.len() == 0 {
        QUANTIZE_WORD_MAX
    } else {
        let m = range_min(s.drop_last(), d);
        let v = channel(s.last().0, d);
        if v < m {
            v
        } else {
            m
        }
    }
}

/// The largest value of channel `d` among the entries; zero for no entries.
pub open spec fn range_max(s: Seq<ColorCount>, d: Component) -> u8
    decreases s.len(),
{
    if s.len() == 0 {
        0
    } else {
        let m = range_max(s.drop_last(), d);
        let v = channel(s.last().0, d);
        if v > m {
            v
        } else {
            m
        }
    }
}

pub open spec fn extent(s: Seq<ColorCount>, d: Component) -> int {
    range_max(s, d) - range_min(s, d)
}

/// The number of colour cells in the tight bounding box of the entries.
pub open spec fn volume(s: Seq<ColorCount>) -> int {
    (extent(s, Component::Red) + 1) * (extent(s, Component::Green) + 1) * (extent(
        s,
        Component::Blue,
    ) + 1)
}

/// The channel with the widest range; red, then green, wins a tie.
pub open spec fn longest_dimension(s: Seq<ColorCount>) -> Component {
    let r = extent(s, Component::Red);
    let g = extent(s, Component::Green);
    let b = extent(s, Component::Blue);
    if r >= g && r >= b {
        Component::Red
    } else if g >= r && g >= b {
        Component::Green
    } else {
        Component::Blue
    }
}

/// What an entry adds to a total: its pixel count, or one when entries are counted.
pub open spec fn weight(e: ColorCount, by_pixels: bool) -> nat {
    if by_pixels {
        e.1 as nat
    } else {
        1
    }
}

/// The number of pixels of the entries (`by_pixels`), or the number of entries.
pub open spec fn total(s: Seq<ColorCount>, by_pixels: bool) -> nat
    decreases s.len(),
{
    if s.len() == 0 {
        0
    } else {
        total(s.drop_last(), by_pixels) + weight(s.last(), by_pixels)
    }
}

/// The number of pixels of the entries.
pub open spec fn population_of(s: Seq<ColorCount>) -> nat {
    total(s, true)
}

/// The entries whose channel `d` equals `v`, in their order.
pub open spec fn with_channel(s: Seq<ColorCount>, d: Component, v: int) -> Seq<ColorCount>
    decreases s.len(),
{
    if s.len() == 0 {
        seq![]
    } else {
        let rest = with_channel(s.drop_last(), d, v);
        if channel(s.last().0, d) == v {
            rest.push(s.last())
        } else {
            rest
        }
    }
}

/// The entries whose channel `d` is below `v`, grouped by increasing channel
/// value, each group in the entries' order.
pub open spec fn sorted_below(s: Seq<ColorCount>, d: Component, v: int) -> Seq<ColorCount>
    decreases v,
{
    if v <= 0 {
        seq![]
    } else {
        sorted_below(s, d, v - 1) + with_channel(s, d, v - 1)
    }
}

/// The entries stably sorted by channel `d`.
pub open spec fn sorted_by_channel(s: Seq<ColorCount>, d: Component) -> Seq<ColorCount> {
    sorted_below(s, d, 256)
}

/// The first index from `i` on at which the running pixel count reaches
/// `midpoint`; zero when none does.
pub open spec fn first_crossing(s: Seq<ColorCount>, midpoint: nat, i: int) -> int
    decreases s.len() - i,
{
    if i < 0 || i >= s.len() {
        0
    } else if population_of(s.take(i + 1)) >= midpoint {
        i
    } else {
        first_crossing(s, midpoint, i + 1)
    }
}

/// Where a sorted box is cut: the first crossing of the midpoint, at least one.
pub open spec fn split_point(s: Seq<ColorCount>, midpoint: nat) -> int {
    let c = first_crossing(s, midpoint, 0);
    if c < 1 {
        1
    } else {
        c
    }
}

/// The two halves of a box: its entries sorted along the longest channel and
/// cut where the running pixel count reaches half of the box's pixels.
pub open spec fn split_entries(s: Seq<ColorCount>) -> (Seq<ColorCount>, Seq<ColorCount>) {
    let t = sorted_by_channel(s, longest_dimension(s));
    let k = split_point(t, population_of(s) / 2);
    (t.take(k), t.skip(k))
}

/// The sum over the entries of channel `d` times the pixel count.
pub open spec fn channel_sum(s: Seq<ColorCount>, d: Component) -> nat
    decreases s.len(),
{
    if s.len() == 0 {
        0
    } else {
        channel_sum(s.drop_last(), d) + channel(s.last().0, d) as nat * s.last().1 as nat
    }
}

/// The pixel-weighted mean of channel `d`, rounded down; zero without pixels.
pub open spec fn mean_channel(s: Seq<ColorCount>, d: Component) -> u8 {
    let p = population_of(s);
    if p == 0 {
        0
    } else {
        (channel_sum(s, d) / p) as u8
    }
}

/// The swatch of a box: its weighted mean colour widened back to eight bits,
/// with the box's pixel count.
pub open spec fn average_color(s: Seq<ColorCount>) -> Swatch {
    Swatch {
        red: requantized(mean_channel(s, Component::Red), QUANTIZE_WORD_WIDTH, 8),
        green: requantized(mean_channel(s, Component::Green), QUANTIZE_WORD_WIDTH, 8),
        blue: requantized(mean_channel(s, Component::Blue), QUANTIZE_WORD_WIDTH, 8),
        population: population_of(s) as u32,
    }
}

// ---------------------------------------------------------------------------
// Lemmas on totals

pub proof fn lemma_total_concat(a: Seq<ColorCount>, b: Seq<ColorCount>, by_pixels: bool)
    ensures
        total(a + b, by_pixels) == total(a, by_pixels) + total(b, by_pixels),
    decreases b.len(),
{
    if b.len() > 0 {
        assert((a + b).drop_last() =~= a + b.drop_last());
        lemma_total_concat(a, b.drop_last(), by_pixels);
    } else {
        assert(a + b =~= a);
    }
}

pub proof fn lemma_total_split(s: Seq<ColorCount>, k: int, by_pixels: bool)
    requires
        0 <= k <= s.len(),
    ensures
        total(s, by_pixels) == total(s.take(k), by_pixels) + total(s.skip(k), by_pixels),
{
    assert(s =~= s.take(k) + s.skip(k));
    lemma_total_concat(s.take(k), s.skip(k), by_pixels);
}

pub proof fn lemma_total_len(s: Seq<ColorCount>)
    ensures
        total(s, false) == s.len(),
    decreases s.len(),
{
    if s.len() > 0 {
        lemma_total_len(s.drop_last());
    }
}

/// The total of the entries whose channel `d` is below `v`.
pub open spec fn total_below(s: Seq<ColorCount>, d: Component, v: int, by_pixels: bool) -> nat
    decreases s.len(),
{
    if s.len() == 0 {
        0
    } else {
        total_below(s.drop_last(), d, v, by_pixels) + if channel(s.last().0, d) < v {
            weight(s.last(), by_pixels)
        } else {
            0
        }
    }
}

proof fn lemma_total_below_step(s: Seq<ColorCount>, d: Component, v: int, by_pixels: bool)
    ensures
        total_below(s, d, v + 1, by_pixels) == total_below(s, d, v, by_pixels) + total(
            with_channel(s, d, v),
            by_pixels,
        ),
    decreases s.len(),
{
    if s.len() > 0 {
        lemma_total_below_step(s.drop_last(), d, v, by_pixels);
        let rest = with_channel(s.drop_last(), d, v);
        if channel(s.last().0, d) == v {
            assert(rest.push(s.last()).drop_last() =~= rest);
        }
    }
}

proof fn lemma_sorted_below_total(s: Seq<ColorCount>, d: Component, v: int, by_pixels: bool)
    requires
        v >= 0,
    ensures
        total(sorted_below(s, d, v), by_pixels) == total_below(s, d, v, by_pixels),
    decreases v,
{
    if v == 0 {
        lemma_total_below_zero(s, d, by_pixels);
    } else {
        lemma_sorted_below_total(s, d, v - 1, by_pixels);
        lemma_total_concat(sorted_below(s, d, v - 1), with_channel(s, d, v - 1), by_pixels);
        lemma_total_below_step(s, d, v - 1, by_pixels);
    }
}

proof fn lemma_total_below_zero(s: Seq<ColorCount>, d: Component, by_pixels: bool)
    ensures
        total_below(s, d, 0, by_pixels) == 0,
    decreases s.len(),
{
    if s.len() > 0 {
        lemma_total_below_zero(s.drop_last(), d, by_pixels);
    }
}

proof fn lemma_total_below_all(s: Seq<ColorCount>, d: Component, by_pixels: bool)
    ensures
        total_below(s, d, 256, by_pixels) == total(s, by_pixels),
    decreases s.len(),
{
    if s.len() > 0 {
        lemma_total_below_all(s.drop_last(), d, by_pixels);
    }
}

/// Sorting by a channel keeps the number of entries and of pixels.
pub proof fn lemma_sorted_total(s: Seq<ColorCount>, d: Component)
    ensures
        sorted_by_channel(s, d).len() == s.len(),
        population_of(sorted_by_channel(s, d)) == population_of(s),
{
    lemma_sorted_below_total(s, d, 256, true);
    lemma_total_below_all(s, d, true);
    lemma_sorted_below_total(s, d, 256, false);
    lemma_total_below_all(s, d, false);
    lemma_total_len(s);
    lemma_total_len(sorted_by_channel(s, d));
}

proof fn lemma_first_crossing_range(s: Seq<ColorCount>, midpoint: nat, i: int)
    ensures
        first_crossing(s, midpoint, i) == 0 || (0 <= i <= first_crossing(s, midpoint, i) < s.len()),
    decreases s.len() - i,
{
    if 0 <= i < s.len() && population_of(s.take(i + 1)) < midpoint {
        lemma_first_crossing_range(s, midpoint, i + 1);
    }
}

/// Splitting a box of at least two entries gives two non-empty boxes whose
/// entries and pixels add up to those of the box.
pub proof fn lemma_split_conservation(s: Seq<ColorCount>)
    requires
        s.len() >= 2,
    ensures
        split_entries(s).0.len() >= 1,
        split_entries(s).1.len() >= 1,
        split_entries(s).0.len() + split_entries(s).1.len() == s.len(),
        population_of(split_entries(s).0) + population_of(split_entries(s).1) == population_of(s),
{
    let t = sorted_by_channel(s, longest_dimension(s));
    lemma_sorted_total(s, longest_dimension(s));
    lemma_first_crossing_range(t, population_of(s) / 2, 0);
    let k = split_point(t, population_of(s) / 2);
    lemma_total_split(t, k, true);
}

proof fn lemma_range_bounds(s: Seq<ColorCount>, d: Component)
    requires
        s.len() > 0,
    ensures
        range_min(s, d) <= range_max(s, d),
    decreases s.len(),
{
}

proof fn lemma_channel_sum_bound(s: Seq<ColorCount>, d: Component)
    ensures
        channel_sum(s, d) <= 255 * population_of(s),
    decreases s.len(),
{
    if s.len() > 0 {
        lemma_channel_sum_bound(s.drop_last(), d);
        let e = s.last();
        assert(channel(e.0, d) as nat * e.1 as nat <= 255 * e.1 as nat) by (nonlinear_arith)
            requires
                channel(e.0, d) <= 255,
        ;
    }
}

// ---------------------------------------------------------------------------
// Boxes

/// A box of histogram entries with its pixel count and tight channel bounds.
pub struct Vbox {
    pub colors: Vec<ColorCount>,
    pub population: u32,
    pub red_range: (u8, u8),
    pub green_range: (u8, u8),
    pub blue_range: (u8, u8),
}

impl Vbox {
    pub open spec fn wf(self) -> bool {
        &&& self.colors.len() > 0
        &&& self.population == population_of(self.colors@)
        &&& self.red_range == (
            range_min(self.colors@, Component::Red),
            range_max(self.colors@, Component::Red),
        )
        &&& self.green_range == (
            range_min(self.colors@, Component::Green),
            range_max(self.colors@, Component::Green),
        )
        &&& self.blue_range == (
            range_min(self.colors@, Component::Blue),
            range_max(self.colors@, Component::Blue),
        )
    }

    /// A box over the given entries, with its bounds computed to fit them tightly.
    pub fn new(colors: Vec<ColorCount>) -> (r: Vbox)
        requires
            colors.len() > 0,
            population_of(colors@) <= u32::MAX,
        ensures
            r.wf(),
            r.colors@ == colors@,
    {
        let mut population: u32 = 0;
        let (mut min_red, mut max_red) = (QUANTIZE_WORD_MAX, 0u8);
        let (mut min_green, mut max_green) = (QUANTIZE_WORD_MAX, 0u8);
        let (mut min_blue, mut max_blue) = (QUANTIZE_WORD_MAX, 0u8);
        let mut i: usize = 0;
        while i < colors.len()
            invariant
                0 <= i <= colors.len(),
                population_of(colors@) <= u32::MAX,
                population == population_of(colors@.take(i as int)),
                min_red == range_min(colors@.take(i as int), Component::Red),
                max_red == range_max(colors@.take(i as int), Component::Red),
                min_green == range_min(colors@.take(i as int), Component::Green),
                max_green == range_max(colors@.take(i as int), Component::Green),
                min_blue == range_min(colors@.take(i as int), Component::Blue),
                max_blue == range_max(colors@.take(i as int), Component::Blue),
            decreases colors.len() - i,
        {
            let ((r, g, b), count) = colors[i];
            proof {
                assert(colors@.take(i + 1).drop_last() =~= colors@.take(i as int));
                lemma_total_split(colors@, i + 1, true);
            }
            population = population + count;
            if r < min_red {
                min_red = r;
            }
            if r > max_red {
                max_red = r;
            }
            if g < min_green {
                min_green = g;
            }
            if g > max_green {
                max_green = g;
            }
            if b < min_blue {
                min_blue = b;
            }
            if b > max_blue {
                max_blue = b;
            }
            i += 1;
        }
        assert(colors@.take(colors.len() as int) =~= colors@);
        Vbox {
            colors,
            population,
            red_range: (min_red, max_red),
            green_range: (min_green, max_green),
            blue_range: (min_blue, max_blue),
        }
    }

    pub fn volume(&self) -> (r: u32)
        requires
            self.wf(),
        ensures
            r == volume(self.colors@),
    {
        proof {
            lemma_range_bounds(self.colors@, Component::Red);
            lemma_range_bounds(self.colors@, Component::Green);
            lemma_range_bounds(self.colors@, Component::Blue);
        }
        let r = (self.red_range.1 - self.red_range.0) as u32 + 1;
        let g = (self.green_range.1 - self.green_range.0) as u32 + 1;
        let b = (self.blue_range.1 - self.blue_range.0) as u32 + 1;
        assert(r * g <= 256 * 256) by (nonlinear_arith)
            requires
                r <= 256,
                g <= 256,
        ;
        assert(r * g * b <= 256 * 256 * 256) by (nonlinear_arith)
            requires
                r * g <= 256 * 256,
                b <= 256,
        ;
        r * g * b
    }

    pub fn can_split(&self) -> (r: bool)
        ensures
            r == (self.colors.len() > 1),
    {
        self.colors.len() > 1
    }

    pub fn get_longest_dimension(&self) -> (r: Component)
        requires
            self.wf(),
        ensures
            r == longest_dimension(self.colors@),
    {
        proof {
            lemma_range_bounds(self.colors@, Component::Red);
            lemma_range_bounds(self.colors@, Component::Green);
            lemma_range_bounds(self.colors@, Component::Blue);
        }
        let red_length = self.red_range.1 - self.red_range.0;
        let green_length = self.green_range.1 - self.green_range.0;
        let blue_length = self.blue_range.1 - self.blue_range.0;
        if red_length >= green_length && red_length >= blue_length {
            Component::Red
        } else if green_length >= red_length && green_length >= blue_length {
            Component::Green
        } else {
            Component::Blue
        }
    }

    /// Sorts the entries, stably, by the channel with the widest range.
    pub fn sort_colors_by_longest_dimension(&mut self)
        requires
            old(self).wf(),
        ensures
            final(self).colors@ == sorted_by_channel(
                old(self).colors@,
                longest_dimension(old(self).colors@),
            ),
            final(self).population == old(self).population,
    {
        let d = self.get_longest_dimension();
        let sorted = sort_by_channel(&self.colors, d);
        self.colors = sorted;
    }

    /// The index at which the sorted entries are cut in two.
    pub fn find_split_point(&self) -> (r: usize)
        requires
            self.population == population_of(self.colors@),
        ensures
            r == split_point(self.colors@, self.population as nat / 2),
    {
        let s = Ghost(self.colors@);
        let midpoint = self.population / 2;
        let mut pop: u64 = 0;
        let mut i: usize = 0;
        while i < self.colors.len()
            invariant
                0 <= i <= self.colors.len(),
                s@ == self.colors@,
                self.population == population_of(s@),
                midpoint == self.population / 2,
                pop == population_of(s@.take(i as int)),
                first_crossing(s@, midpoint as nat, 0) == first_crossing(
                    s@,
                    midpoint as nat,
                    i as int,
                ),
            decreases self.colors.len() - i,
        {
            proof {
                assert(s@.take(i + 1).drop_last() =~= s@.take(i as int));
                lemma_total_split(s@, i + 1, true);
            }
            pop = pop + self.colors[i].1 as u64;
            if pop >= midpoint as u64 {
                return if i > 1 {
                    i
                } else {
                    1
                };
            }
            i += 1;
        }
        1
    }

    /// Cuts the box in two at the midpoint of its pixels along its widest channel.
    pub fn split_box(self) -> (r: (Vbox, Vbox))
        requires
            self.wf(),
            self.colors.len() > 1,
        ensures
            r.0.wf(),
            r.1.wf(),
            (r.0.colors@, r.1.colors@) == split_entries(self.colors@),
    {
        let ghost old_colors = self.colors@;
        let mut vbox = self;
        vbox.sort_colors_by_longest_dimension();
        proof {
            lemma_sorted_total(old_colors, longest_dimension(old_colors));
            lemma_split_conservation(old_colors);
            lemma_first_crossing_range(vbox.colors@, vbox.population as nat / 2, 0);
        }
        let split_point = vbox.find_split_point();
        let mut left = vbox.colors;
        let right = left.split_off(split_point);
        proof {
            lemma_total_split(
                sorted_by_channel(old_colors, longest_dimension(old_colors)),
                split_point as int,
                true,
            );
        }
        (Vbox::new(left), Vbox::new(right))
    }

    /// The box's swatch: the pixel-weighted mean colour, widened back to eight bits.
    pub fn get_average_color(&self) -> (r: Swatch)
        requires
            self.wf(),
        ensures
            r == average_color(self.colors@),
    {
        let s = Ghost(self.colors@);
        let mut pop: u64 = 0;
        let mut red_sum: u64 = 0;
        let mut green_sum: u64 = 0;
        let mut blue_sum: u64 = 0;
        let mut i: usize = 0;
        while i < self.colors.len()
            invariant
                0 <= i <= self.colors.len(),
                s@ == self.colors@,
                population_of(s@) <= u32::MAX,
                pop == population_of(s@.take(i as int)),
                red_sum == channel_sum(s@.take(i as int), Component::Red),
                green_sum == channel_sum(s@.take(i as int), Component::Green),
                blue_sum == channel_sum(s@.take(i as int), Component::Blue),
            decreases self.colors.len() - i,
        {
            let ((r, g, b), count) = self.colors[i];
            proof {
                let next = s@.take(i + 1);
                assert(next.drop_last() =~= s@.take(i as int));
                lemma_total_split(s@, i + 1, true);
                lemma_channel_sum_bound(next, Component::Red);
                lemma_channel_sum_bound(next, Component::Green);
                lemma_channel_sum_bound(next, Component::Blue);
            }
            pop = pop + count as u64;
            red_sum = red_sum + r as u64 * count as u64;
            green_sum = green_sum + g as u64 * count as u64;
            blue_sum = blue_sum + b as u64 * count as u64;
            i += 1;
        }
        assert(s@.take(self.colors.len() as int) =~= s@);
        let (red_mean, green_mean, blue_mean) = if pop == 0 {
            (0u8, 0u8, 0u8)
        } else {
            ((red_sum / pop) as u8, (green_sum / pop) as u8, (blue_sum / pop) as u8)
        };
        let red = modify_width(red_mean, QUANTIZE_WORD_WIDTH, 8);
        let green = modify_width(green_mean, QUANTIZE_WORD_WIDTH, 8);
        let blue = modify_width(blue_mean, QUANTIZE_WORD_WIDTH, 8);
        Swatch { red, green, blue, population: pop as u32 }
    }
}

/// The entries stably sorted by channel `d`: for each channel value in turn,
/// the entries that have it, in their order.
pub fn sort_by_channel(colors: &Vec<ColorCount>, d: Component) -> (r: Vec<ColorCount>)
    ensures
        r@ == sorted_by_channel(colors@, d),
{
    let mut out: Vec<ColorCount> = Vec::new();
    let mut v: u32 = 0;
    while v < 256
        invariant
            0 <= v <= 256,
            out@ == sorted_below(colors@, d, v as int),
        decreases 256 - v,
    {
        let ghost before = out@;
        let mut j: usize = 0;
        while j < colors.len()
            invariant
                0 <= v < 256,
                0 <= j <= colors.len(),
                before == sorted_below(colors@, d, v as int),
                out@ == before + with_channel(colors@.take(j as int), d, v as int),
            decreases colors.len() - j,
        {
            let e = colors[j];
            let c = match d {
                Component::Red => e.0.0,
                Component::Green => e.0.1,
                Component::Blue => e.0.2,
            };
            proof {
                assert(colors@.take(j + 1).drop_last() =~= colors@.take(j as int));
            }
            if c as u32 == v {
                out.push(e);
            }
            j += 1;
        }
        assert(colors@.take(colors.len() as int) =~= colors@);
        v += 1;
    }
    out
}

} // verus!
