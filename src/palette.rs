use vstd::prelude::*;
use crate::color::Rgb;
use crate::filter::{DefaultFilter, Filter};
use crate::quantizer::{quantized_colors, ColorCutQuantizer};
use crate::scoring::{select_swatches, selected_swatches};
use crate::swatch::Swatch;
use crate::target::{normalized, preset_targets, Target};

verus! {

/// A palette: the swatches of an image, the targets, and the swatch that each
/// target selected (`selected[i]` belongs to `targets[i]`).
#[derive(Debug)]
pub struct Palette {
    pub swatches: Vec<Swatch>,
    pub targets: Vec<Target>,
    pub selected: Vec<Option<Swatch>>,
}

/// The selection of the last target among the first `n` whose identity is `id`.
pub open spec fn selection_for(
    targets: Seq<Target>,
    selected: Seq<Option<Swatch>>,
    id: u64,
    n: int,
) -> Option<Swatch>
    decreases n,
{
    if n <= 0 {
        None
    } else if targets[n - 1].name == id {
        selected[n - 1]
    } else {
        selection_for(targets, selected, id, n - 1)
    }
}

/// The index of the last swatch of largest population among the first `n`.
pub open spec fn most_prominent(sw: Seq<Swatch>, n: int) -> int
    decreases n,
{
    if n <= 1 {
        0
    } else {
        let b = most_prominent(sw, n - 1);
        if sw[n - 1].pop() >= sw[b].pop() {
            n - 1
        } else {
            b
        }
    }
}

impl Palette {
    pub open spec fn wf(self) -> bool {
        self.selected.len() == self.targets.len()
    }

    /// The swatch that a target selected, if the palette has the target and
    /// it selected one.
    pub open spec fn swatch_for(self, id: u64) -> Option<Swatch> {
        selection_for(self.targets@, self.selected@, id, self.targets.len() as int)
    }

    pub fn swatches(&self) -> (r: &[Swatch])
        ensures
            r@ == self.swatches@,
    {
        self.swatches.as_slice()
    }

    pub fn targets(&self) -> (r: &[Target])
        ensures
            r@ == self.targets@,
    {
        self.targets.as_slice()
    }

    pub fn get_swatch_for_target(&self, target: Target) -> (r: Option<Swatch>)
        requires
            self.wf(),
        ensures
            r == self.swatch_for(target.name),
    {
        let mut n = self.targets.len();
        while n > 0
            invariant
                n <= self.targets.len(),
                self.wf(),
                self.swatch_for(target.name) == selection_for(
                    self.targets@,
                    self.selected@,
                    target.name,
                    n as int,
                ),
            decreases n,
        {
            if self.targets[n - 1].name == target.name {
                return self.selected[n - 1];
            }
            n -= 1;
        }
        None
    }

    pub fn light_vibrant_swatch(&self) -> (r: Option<Swatch>)
        requires
            self.wf(),
        ensures
            r == self.swatch_for(0),
    {
        self.get_swatch_for_target(Target::light_vibrant())
    }

    pub fn vibrant_swatch(&self) -> (r: Option<Swatch>)
        requires
            self.wf(),
        ensures
            r == self.swatch_for(1),
    {
        self.get_swatch_for_target(Target::vibrant())
    }

    pub fn dark_vibrant_swatch(&self) -> (r: Option<Swatch>)
        requires
            self.wf(),
        ensures
            r == self.swatch_for(2),
    {
        self.get_swatch_for_target(Target::dark_vibrant())
    }

    pub fn light_muted_swatch(&self) -> (r: Option<Swatch>)
        requires
            self.wf(),
        ensures
            r == self.swatch_for(3),
    {
        self.get_swatch_for_target(Target::light_muted())
    }

    pub fn muted_swatch(&self) -> (r: Option<Swatch>)
        requires
            self.wf(),
        ensures
            r == self.swatch_for(4),
    {
        self.get_swatch_for_target(Target::muted())
    }

    pub fn dark_muted_swatch(&self) -> (r: Option<Swatch>)
        requires
            self.wf(),
        ensures
            r == self.swatch_for(5),
    {
        self.get_swatch_for_target(Target::dark_muted())
    }

    pub fn light_vibrant_color(&self) -> (r: Option<Rgb>)
        requires
            self.wf(),
        ensures
            r == color_of(self.swatch_for(0)),
    {
        rgb_of(self.light_vibrant_swatch())
    }

    pub fn vibrant_color(&self) -> (r: Option<Rgb>)
        requires
            self.wf(),
        ensures
            r == color_of(self.swatch_for(1)),
    {
        rgb_of(self.vibrant_swatch())
    }

    pub fn dark_vibrant_color(&self) -> (r: Option<Rgb>)
        requires
            self.wf(),
        ensures
            r == color_of(self.swatch_for(2)),
    {
        rgb_of(self.dark_vibrant_swatch())
    }

    pub fn light_muted_color(&self) -> (r: Option<Rgb>)
        requires
            self.wf(),
        ensures
            r == color_of(self.swatch_for(3)),
    {
        rgb_of(self.light_muted_swatch())
    }

    pub fn muted_color(&self) -> (r: Option<Rgb>)
        requires
            self.wf(),
        ensures
            r == color_of(self.swatch_for(4)),
    {
        rgb_of(self.muted_swatch())
    }

    pub fn dark_muted_color(&self) -> (r: Option<Rgb>)
        requires
            self.wf(),
        ensures
            r == color_of(self.swatch_for(5)),
    {
        rgb_of(self.dark_muted_swatch())
    }

    /// The colour of the swatch of largest population, the last one on a tie.
    pub fn most_prominent_color(&self) -> (r: Option<Rgb>)
        ensures
            self.swatches.len() == 0 ==> r is None,
            self.swatches.len() > 0 ==> r == Some(
                self.swatches@[most_prominent(self.swatches@, self.swatches.len() as int)].color(),
            ),
    {
        if self.swatches.len() == 0 {
            return None;
        }
        let mut best: usize = 0;
        let mut i: usize = 1;
        while i < self.swatches.len()
            invariant
                1 <= i <= self.swatches.len(),
                best < i,
                best == most_prominent(self.swatches@, i as int),
            decreases self.swatches.len() - i,
        {
            if self.swatches[i].population() >= self.swatches[best].population() {
                best = i;
            }
            i += 1;
        }
        Some(self.swatches[best].rgb())
    }
}

pub open spec fn color_of(s: Option<Swatch>) -> Option<Rgb> {
    match s {
        Some(s) => Some(s.color()),
        None => None,
    }
}

fn rgb_of(s: Option<Swatch>) -> (r: Option<Rgb>)
    ensures
        r == color_of(s),
{
    match s {
        Some(s) => Some(s.rgb()),
        None => None,
    }
}

/// Assembles a palette from a pixel buffer: quantization options, targets and filters.
pub struct PaletteBuilder<F> {
    pub pixels: Vec<Rgb>,
    pub targets: Vec<Target>,
    pub maximum_color_count: usize,
    pub filters: Vec<F>,
}

/// The default number of swatches that quantization may produce.
pub const DEFAULT_CALCULATE_NUMBER_COLORS: usize = 16;

impl PaletteBuilder<DefaultFilter> {
    /// A builder with the preset targets, sixteen colours and the default filter.
    pub fn from_pixels(pixels: Vec<Rgb>) -> (r: Self)
        ensures
            r.pixels@ == pixels@,
            r.targets@ == preset_targets(),
            r.maximum_color_count == DEFAULT_CALCULATE_NUMBER_COLORS,
            r.filters@ == seq![DefaultFilter],
            r.wf(),
    {
        let presets = Target::default_targets();
        let mut targets: Vec<Target> = Vec::new();
        let mut i: usize = 0;
        while i < 6
            invariant
                0 <= i <= 6,
                presets@ == preset_targets(),
                targets@ == presets@.take(i as int),
            decreases 6 - i,
        {
            targets.push(presets[i]);
            proof {
                assert(presets@.take(i + 1) =~= presets@.take(i as int).push(presets@[i as int]));
            }
            i += 1;
        }
        assert(presets@.take(6) =~= presets@);
        let filters = vec![DefaultFilter];
        assert(filters@ =~= seq![DefaultFilter]);
        PaletteBuilder {
            pixels,
            targets,
            maximum_color_count: DEFAULT_CALCULATE_NUMBER_COLORS,
            filters,
        }
    }
}

impl<F: Filter> PaletteBuilder<F> {
    /// At least one colour, and every target's bands are fractions of one.
    pub open spec fn wf(self) -> bool {
        &&& self.maximum_color_count >= 1
        &&& forall|i: int| 0 <= i < self.targets.len() ==> (#[trigger] self.targets@[i]).wf()
    }

    /// Sets the largest number of swatches that quantization may produce.
    pub fn maximum_color_count(self, count: usize) -> (r: Self)
        requires
            count >= 1,
        ensures
            r == (PaletteBuilder { maximum_color_count: count, ..self }),
    {
        PaletteBuilder { maximum_color_count: count, ..self }
    }

    /// Appends a target, unless one with the same identity is already there.
    pub fn add_target(self, target: Target) -> (r: Self)
        ensures
            r.pixels == self.pixels,
            r.maximum_color_count == self.maximum_color_count,
            r.filters == self.filters,
            r.targets@ == if (exists|i: int|
                0 <= i < self.targets.len() && #[trigger] self.targets@[i].name == target.name) {
                self.targets@
            } else {
                self.targets@.push(target)
            },
    {
        let mut i: usize = 0;
        while i < self.targets.len()
            invariant
                0 <= i <= self.targets.len(),
                forall|j: int| 0 <= j < i ==> self.targets@[j].name != target.name,
            decreases self.targets.len() - i,
        {
            if self.targets[i].name == target.name {
                return self;
            }
            i += 1;
        }
        let mut b = self;
        b.targets.push(target);
        b
    }

    /// Appends a filter.
    pub fn add_filter(self, filter: F) -> (r: Self)
        ensures
            r.pixels == self.pixels,
            r.maximum_color_count == self.maximum_color_count,
            r.targets == self.targets,
            r.filters@ == self.filters@.push(filter),
    {
        let mut b = self;
        b.filters.push(filter);
        b
    }

    /// Removes every target, the presets included.
    pub fn clear_targets(self) -> (r: Self)
        ensures
            r.pixels == self.pixels,
            r.maximum_color_count == self.maximum_color_count,
            r.filters == self.filters,
            r.targets@ == Seq::<Target>::empty(),
    {
        PaletteBuilder { targets: Vec::new(), ..self }
    }

    /// Removes every filter, the default one included; filters of another kind may follow.
    pub fn clear_filters<G: Filter>(self) -> (r: PaletteBuilder<G>)
        ensures
            r.pixels == self.pixels,
            r.maximum_color_count == self.maximum_color_count,
            r.targets == self.targets,
            r.filters@ == Seq::<G>::empty(),
    {
        PaletteBuilder {
            pixels: self.pixels,
            targets: self.targets,
            maximum_color_count: self.maximum_color_count,
            filters: Vec::new(),
        }
    }

    /// Quantizes the pixels into swatches and lets each target, in order,
    /// claim its best swatch whose colour no earlier target claimed.
    pub fn generate(self) -> (r: Palette)
        requires
            self.wf(),
            self.pixels.len() <= u32::MAX,
        ensures
            r.wf(),
            r.swatches@ == quantized_colors(
                self.pixels@,
                self.maximum_color_count as nat,
                self.filters@,
            ),
            r.targets@ == self.targets@.map_values(|t: Target| normalized(t)),
            r.selected@ == selected_swatches(r.swatches@, self.targets@),
    {
        let PaletteBuilder { pixels, targets, maximum_color_count, filters } = self;
        let quantizer = ColorCutQuantizer::new(pixels, maximum_color_count, filters);
        let swatches = quantizer.get_quantized_colors();
        let mut targets = targets;
        let selected = select_swatches(&swatches, &mut targets);
        Palette { swatches, targets, selected }
    }
}

} // verus!
