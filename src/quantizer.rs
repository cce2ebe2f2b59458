use vstd::prelude::*;
use crate::color::{modify_width, Rgb, QUANTIZE_WORD_WIDTH};
use crate::filter::{allowed_by_all, should_ignore_color, Filter};
use crate::histogram::{
    build_histogram, count_of, filter_histogram, filtered_histogram, histogram_total,
    histogram_upto, lemma_count_bound, lemma_histogram_complete, unpack, widen_color, ColorCount,
    HISTOGRAM_SIZE,
};
use crate::swatch::Swatch;
use crate::vbox::{average_color, population_of, split_entries, volume, Vbox};

verus! {

/// The index of the first box of largest volume among the first `n`.
pub open spec fn largest_box(q: Seq<Seq<ColorCount>>, n: int) -> int
    decreases n,
{
    if n <= 1 {
        0
    } else {
        let b = largest_box(q, n - 1);
        if volume(q[n - 1]) > volume(q[b]) {
            n - 1
        } else {
            b
        }
    }
}

/// The boxes left once the queue has been cut up to `max_colors` boxes: while
/// there are fewer, the box of largest volume is taken out and, if it holds
/// two entries or more, its two halves are put at the end; a box that cannot
/// be split ends the cutting and is dropped.
pub open spec fn cut_boxes(q: Seq<Seq<ColorCount>>, max_colors: nat) -> Seq<Seq<ColorCount>>
    decreases max_colors - q.len(),
    via cut_boxes_decreases
{
    if q.len() >= max_colors || q.len() == 0 {
        q
    } else {
        let i = largest_box(q, q.len() as int);
        let b = q[i];
        if b.len() <= 1 {
            q.remove(i)
        } else {
            cut_boxes(q.remove(i).push(split_entries(b).0).push(split_entries(b).1), max_colors)
        }
    }
}

/// The averaged swatches of the boxes that every filter allows, in box order.
pub open spec fn box_swatches<F: Filter>(q: Seq<Seq<ColorCount>>, filters: Seq<F>) -> Seq<Swatch>
    decreases q.len(),
{
    if q.len() == 0 {
        seq![]
    } else {
        let prev = box_swatches(q.drop_last(), filters);
        let s = average_color(q.last());
        if allowed_by_all(filters, s.color()) {
            prev.push(s)
        } else {
            prev
        }
    }
}

/// The swatch of a single histogram entry: its colour widened to eight bits.
pub open spec fn entry_swatch(e: ColorCount) -> Swatch {
    let c = widen_color(e.0);
    Swatch { red: c.0, green: c.1, blue: c.2, population: e.1 }
}

/// One swatch per histogram entry, in order.
pub open spec fn entry_swatches(e: Seq<ColorCount>) -> Seq<Swatch>
    decreases e.len(),
{
    if e.len() == 0 {
        seq![]
    } else {
        entry_swatches(e.drop_last()).push(entry_swatch(e.last()))
    }
}

/// The swatches of a quantization run. With no more filtered histogram
/// entries than `max_colors`, one per entry; otherwise the filtered averages of
/// the boxes that cutting the whole histogram leaves.
pub open spec fn quantized_colors<F: Filter>(
    pixels: Seq<Rgb>,
    max_colors: nat,
    filters: Seq<F>,
) -> Seq<Swatch> {
    let e = filtered_histogram(pixels, filters);
    if e.len() <= max_colors {
        entry_swatches(e)
    } else {
        box_swatches(cut_boxes(seq![e], max_colors), filters)
    }
}

pub open spec fn boxes_view(q: Seq<Vbox>) -> Seq<Seq<ColorCount>> {
    q.map_values(|b: Vbox| b.colors@)
}

#[via_fn]
proof fn cut_boxes_decreases(q: Seq<Seq<ColorCount>>, max_colors: nat) {
    if q.len() > 0 {
        lemma_largest_box_range(q, q.len() as int);
    }
}

// ---------------------------------------------------------------------------
// Laws

proof fn lemma_cut_boxes_len(q: Seq<Seq<ColorCount>>, max_colors: nat)
    requires
        q.len() <= max_colors,
    ensures
        cut_boxes(q, max_colors).len() <= max_colors,
    decreases max_colors - q.len(),
{
    if q.len() < max_colors && q.len() > 0 {
        let i = largest_box(q, q.len() as int);
        lemma_largest_box_range(q, q.len() as int);
        let b = q[i];
        if b.len() > 1 {
            lemma_cut_boxes_len(
                q.remove(i).push(split_entries(b).0).push(split_entries(b).1),
                max_colors,
            );
        }
    }
}

proof fn lemma_largest_box_range(q: Seq<Seq<ColorCount>>, n: int)
    requires
        n >= 1,
    ensures
        0 <= largest_box(q, n) < n,
    decreases n,
{
    if n > 1 {
        lemma_largest_box_range(q, n - 1);
    }
}

proof fn lemma_box_swatches_len<F: Filter>(q: Seq<Seq<ColorCount>>, filters: Seq<F>)
    ensures
        box_swatches(q, filters).len() <= q.len(),
    decreases q.len(),
{
    if q.len() > 0 {
        lemma_box_swatches_len(q.drop_last(), filters);
    }
}

proof fn lemma_entry_swatches_len(e: Seq<ColorCount>)
    ensures
        entry_swatches(e).len() == e.len(),
    decreases e.len(),
{
    if e.len() > 0 {
        lemma_entry_swatches_len(e.drop_last());
    }
}

/// A run never yields more than `max_colors` swatches, and yields exactly one
/// per filtered histogram entry when there are no more entries than that.
pub proof fn lemma_swatch_count_bound<F: Filter>(
    pixels: Seq<Rgb>,
    max_colors: nat,
    filters: Seq<F>,
)
    requires
        max_colors >= 1,
    ensures
        quantized_colors(pixels, max_colors, filters).len() <= max_colors,
        filtered_histogram(pixels, filters).len() <= max_colors ==> quantized_colors(
            pixels,
            max_colors,
            filters,
        ).len() == filtered_histogram(pixels, filters).len(),
{
    let e = filtered_histogram(pixels, filters);
    lemma_entry_swatches_len(e);
    if e.len() > max_colors {
        lemma_cut_boxes_len(seq![e], max_colors);
        lemma_box_swatches_len(cut_boxes(seq![e], max_colors), filters);
    }
}

/// With room for a single swatch and more than one filtered histogram entry,
/// the run yields the pixel-weighted average of all the entries, if the
/// filters allow it, and nothing otherwise.
pub proof fn lemma_single_swatch<F: Filter>(pixels: Seq<Rgb>, filters: Seq<F>)
    requires
        filtered_histogram(pixels, filters).len() > 1,
    ensures
        quantized_colors(pixels, 1, filters) == if allowed_by_all(
            filters,
            average_color(filtered_histogram(pixels, filters)).color(),
        ) {
            seq![average_color(filtered_histogram(pixels, filters))]
        } else {
            seq![]
        },
{
    let e = filtered_histogram(pixels, filters);
    let q = seq![e];
    assert(cut_boxes(q, 1) == q);
    assert(q.drop_last() =~= seq![]);
    assert(box_swatches(q.drop_last(), filters) == Seq::<Swatch>::empty());
    assert(seq![].push(average_color(e)) =~= seq![average_color(e)]);
}

proof fn lemma_histogram_allowed<F: Filter>(pixels: Seq<Rgb>, filters: Seq<F>, n: int)
    ensures
        forall|j: int|
            0 <= j < histogram_upto(pixels, filters, n).len() ==> allowed_by_all(
                filters,
                widen_color(#[trigger] histogram_upto(pixels, filters, n)[j].0),
            ),
    decreases n,
{
    if n > 0 {
        lemma_histogram_allowed(pixels, filters, n - 1);
        let prev = histogram_upto(pixels, filters, n - 1);
        let cur = histogram_upto(pixels, filters, n);
        assert forall|j: int| 0 <= j < cur.len() implies allowed_by_all(
            filters,
            widen_color(#[trigger] cur[j].0),
        ) by {
            if j < prev.len() {
                assert(cur[j] == prev[j]);
            }
        }
    }
}

proof fn lemma_entry_swatches_colors(e: Seq<ColorCount>)
    ensures
        entry_swatches(e).len() == e.len(),
        forall|j: int|
            0 <= j < e.len() ==> (#[trigger] entry_swatches(e)[j]).color() == widen_color(e[j].0),
    decreases e.len(),
{
    if e.len() > 0 {
        lemma_entry_swatches_colors(e.drop_last());
    }
}

proof fn lemma_box_swatches_allowed<F: Filter>(q: Seq<Seq<ColorCount>>, filters: Seq<F>)
    ensures
        forall|j: int|
            0 <= j < box_swatches(q, filters).len() ==> allowed_by_all(
                filters,
                (#[trigger] box_swatches(q, filters)[j]).color(),
            ),
    decreases q.len(),
{
    if q.len() > 0 {
        lemma_box_swatches_allowed(q.drop_last(), filters);
        let prev = box_swatches(q.drop_last(), filters);
        let cur = box_swatches(q, filters);
        assert forall|j: int| 0 <= j < cur.len() implies allowed_by_all(
            filters,
            (#[trigger] cur[j]).color(),
        ) by {
            if j < prev.len() {
                assert(cur[j] == prev[j]);
            }
        }
    }
}

/// Every swatch of a run passes every filter: histogram colours are filtered
/// before the boxes are cut, and averaged box colours after.
pub proof fn lemma_swatches_allowed<F: Filter>(pixels: Seq<Rgb>, max_colors: nat, filters: Seq<F>)
    ensures
        forall|j: int|
            0 <= j < quantized_colors(pixels, max_colors, filters).len() ==> allowed_by_all(
                filters,
                (#[trigger] quantized_colors(pixels, max_colors, filters)[j]).color(),
            ),
{
    let e = filtered_histogram(pixels, filters);
    lemma_histogram_allowed(pixels, filters, HISTOGRAM_SIZE as int);
    lemma_entry_swatches_colors(e);
    lemma_box_swatches_allowed(cut_boxes(seq![e], max_colors), filters);
    if e.len() <= max_colors {
        assert forall|j: int| 0 <= j < entry_swatches(e).len() implies allowed_by_all(
            filters,
            (#[trigger] entry_swatches(e)[j]).color(),
        ) by {
            assert(entry_swatches(e)[j].color() == widen_color(e[j].0));
        }
    }
}

/// Quantization involves no chance: equal pixels, budget and filters give
/// equal swatch lists, in the same order.
pub proof fn lemma_quantization_deterministic<F: Filter>(
    pixels: Seq<Rgb>,
    other_pixels: Seq<Rgb>,
    max_colors: nat,
    filters: Seq<F>,
)
    requires
        pixels == other_pixels,
    ensures
        quantized_colors(pixels, max_colors, filters) == quantized_colors(
            other_pixels,
            max_colors,
            filters,
        ),
{
}

proof fn lemma_histogram_population<F: Filter>(pixels: Seq<Rgb>, filters: Seq<F>, n: int)
    requires
        pixels.len() <= u32::MAX,
    ensures
        population_of(histogram_upto(pixels, filters, n)) <= histogram_total(pixels, n),
    decreases n,
{
    if n > 0 {
        lemma_histogram_population(pixels, filters, n - 1);
        let prev = histogram_upto(pixels, filters, n - 1);
        lemma_count_bound(pixels, n - 1);
        if count_of(pixels, n - 1) > 0 && allowed_by_all(filters, widen_color(unpack(n - 1))) {
            let e = (unpack(n - 1), count_of(pixels, n - 1) as u32);
            assert(prev.push(e).drop_last() =~= prev);
        }
    }
}

// ---------------------------------------------------------------------------
// The quantizer

/// Reduces a list of pixels to at most `max_colors` representative swatches.
pub struct ColorCutQuantizer<F> {
    pub pixels: Vec<Rgb>,
    pub max_colors: usize,
    pub filters: Vec<F>,
}

impl<F: Filter> ColorCutQuantizer<F> {
    pub fn new(pixels: Vec<Rgb>, max_colors: usize, filters: Vec<F>) -> (r: Self)
        ensures
            r.pixels@ == pixels@,
            r.max_colors == max_colors,
            r.filters@ == filters@,
    {
        ColorCutQuantizer { pixels, max_colors, filters }
    }

    /// Builds the histogram, prunes it with the filters and cuts it into at
    /// most `max_colors` swatches.
    pub fn get_quantized_colors(self) -> (r: Vec<Swatch>)
        requires
            self.max_colors >= 1,
            self.pixels.len() <= u32::MAX,
        ensures
            r@ == quantized_colors(self.pixels@, self.max_colors as nat, self.filters@),
    {
        let counts = build_histogram(&self.pixels);
        let colors = filter_histogram(&self.pixels, &counts, &self.filters);
        if colors.len() <= self.max_colors {
            let mut swatches: Vec<Swatch> = Vec::new();
            let mut i: usize = 0;
            while i < colors.len()
                invariant
                    0 <= i <= colors.len(),
                    swatches@ == entry_swatches(colors@.take(i as int)),
                decreases colors.len() - i,
            {
                let (c, count) = colors[i];
                let wide = (
                    modify_width(c.0, QUANTIZE_WORD_WIDTH, 8),
                    modify_width(c.1, QUANTIZE_WORD_WIDTH, 8),
                    modify_width(c.2, QUANTIZE_WORD_WIDTH, 8),
                );
                proof {
                    assert(colors@.take(i + 1).drop_last() =~= colors@.take(i as int));
                }
                swatches.push(Swatch::new(wide, count));
                i += 1;
            }
            assert(colors@.take(colors.len() as int) =~= colors@);
            swatches
        } else {
            proof {
                lemma_histogram_population(self.pixels@, self.filters@, HISTOGRAM_SIZE as int);
                lemma_histogram_complete(self.pixels@);
            }
            self.quantize_pixels(colors)
        }
    }

    fn quantize_pixels(&self, colors: Vec<ColorCount>) -> (r: Vec<Swatch>)
        requires
            colors.len() > 0,
            population_of(colors@) <= u32::MAX,
        ensures
            r@ == box_swatches(cut_boxes(seq![colors@], self.max_colors as nat), self.filters@),
    {
        let mut pq: Vec<Vbox> = Vec::new();
        pq.push(Vbox::new(colors));
        assert(boxes_view(pq@) =~= seq![colors@]);
        let pq = self.split_boxes(pq);
        let ghost q = boxes_view(pq@);
        let mut swatches: Vec<Swatch> = Vec::new();
        let mut i: usize = 0;
        while i < pq.len()
            invariant
                0 <= i <= pq.len(),
                q == boxes_view(pq@),
                forall|j: int| 0 <= j < pq.len() ==> (#[trigger] pq@[j]).wf(),
                swatches@ == box_swatches(q.take(i as int), self.filters@),
            decreases pq.len() - i,
        {
            let swatch = pq[i].get_average_color();
            proof {
                assert(q.take(i + 1).drop_last() =~= q.take(i as int));
            }
            if !should_ignore_color(&self.filters, swatch.rgb()) {
                swatches.push(swatch);
            }
            i += 1;
        }
        assert(q.take(pq.len() as int) =~= q);
        swatches
    }

    /// Cuts boxes until there are `max_colors` of them or the largest cannot be cut.
    fn split_boxes(&self, boxes: Vec<Vbox>) -> (r: Vec<Vbox>)
        requires
            forall|j: int| 0 <= j < boxes.len() ==> (#[trigger] boxes@[j]).wf(),
        ensures
            forall|j: int| 0 <= j < r.len() ==> (#[trigger] r@[j]).wf(),
            boxes_view(r@) == cut_boxes(boxes_view(boxes@), self.max_colors as nat),
    {
        let ghost goal = cut_boxes(boxes_view(boxes@), self.max_colors as nat);
        let mut pq = boxes;
        while pq.len() < self.max_colors
            invariant
                forall|j: int| 0 <= j < pq.len() ==> (#[trigger] pq@[j]).wf(),
                goal == cut_boxes(boxes_view(pq@), self.max_colors as nat),
                goal == cut_boxes(boxes_view(boxes@), self.max_colors as nat),
            decreases self.max_colors - pq.len(),
        {
            if pq.len() == 0 {
                assert(boxes_view(pq@).len() == 0);
                return pq;
            }
            let i = largest_box_index(&pq);
            let ghost before = boxes_view(pq@);
            let vbox = pq.remove(i);
            assert(boxes_view(pq@) =~= before.remove(i as int));
            assert(before[i as int] == vbox.colors@);
            proof {
                lemma_largest_box_range(before, before.len() as int);
            }
            if vbox.can_split() {
                let (left, right) = vbox.split_box();
                pq.push(left);
                pq.push(right);
                assert(boxes_view(pq@) =~= before.remove(i as int).push(left.colors@).push(
                    right.colors@,
                ));
            } else {
                assert(before.len() < self.max_colors);
                assert(cut_boxes(before, self.max_colors as nat) == before.remove(i as int));
                return pq;
            }
        }
        pq
    }
}

/// The index of the first box of largest volume.
fn largest_box_index(pq: &Vec<Vbox>) -> (r: usize)
    requires
        pq.len() > 0,
        forall|j: int| 0 <= j < pq.len() ==> (#[trigger] pq@[j]).wf(),
    ensures
        r == largest_box(boxes_view(pq@), pq.len() as int),
        r < pq.len(),
{
    let ghost q = boxes_view(pq@);
    let mut best: usize = 0;
    let mut best_volume = pq[0].volume();
    let mut i: usize = 1;
    while i < pq.len()
        invariant
            1 <= i <= pq.len(),
            q == boxes_view(pq@),
            forall|j: int| 0 <= j < pq.len() ==> (#[trigger] pq@[j]).wf(),
            best < i,
            best == largest_box(q, i as int),
            best_volume == volume(q[best as int]),
        decreases pq.len() - i,
    {
        let v = pq[i].volume();
        if v > best_volume {
            best = i;
            best_volume = v;
        }
        i += 1;
    }
    best
}

} // verus!
