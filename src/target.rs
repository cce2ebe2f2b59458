use vstd::prelude::*;
use crate::color::Ratio;

verus! {

/// Relies on rand::random: a value drawn from the thread-local generator; nothing is known of it.
pub assume_specification<T>[ rand::random::<T> ]() -> (r: T)
    where
        rand::distributions::Standard: rand::distributions::Distribution<T>,
;

/// Weight of the saturation score, in hundredths.
pub const WEIGHT_SATURATION: u32 = 24;
/// Weight of the lightness score, in hundredths.
pub const WEIGHT_LUMA: u32 = 52;
/// Weight of the population score, in hundredths.
pub const WEIGHT_POPULATION: u32 = 24;

pub const MIN_VIBRANT_SATURATION: u32 = 35;
pub const TARGET_VIBRANT_SATURATION: u32 = 100;
pub const TARGET_MUTED_SATURATION: u32 = 30;
pub const MAX_MUTED_SATURATION: u32 = 40;
pub const MIN_LIGHT_LUMA: u32 = 55;
pub const TARGET_LIGHT_LUMA: u32 = 74;
pub const TARGET_DARK_LUMA: u32 = 26;
pub const MAX_DARK_LUMA: u32 = 45;
pub const MIN_NORMAL_LUMA: u32 = 30;
pub const TARGET_NORMAL_LUMA: u32 = 50;
pub const MAX_NORMAL_LUMA: u32 = 70;

/// A perceptual bucket that a palette fills with at most one swatch.
///
/// Saturation and lightness bands are `(min, target, max)` in hundredths. The
/// weights of the saturation, lightness and population scores are the
/// fractions `weights.i / weight_scale`. Targets are equal when their
/// identities (`name`) are.
#[derive(Clone, Copy, Debug)]
pub struct Target {
    pub name: u64,
    pub saturation_targets: (u32, u32, u32),
    pub lightness_targets: (u32, u32, u32),
    pub weights: (u32, u32, u32),
    pub weight_scale: u64,
    pub is_exclusive: bool,
}

/// The sum of a target's weight numerators.
pub open spec fn weight_sum(t: Target) -> nat {
    t.weights.0 as nat + t.weights.1 as nat + t.weights.2 as nat
}

/// The target with its weights scaled to add up to one; unchanged when they are all zero.
pub open spec fn normalized(t: Target) -> Target {
    if weight_sum(t) == 0 {
        t
    } else {
        Target { weight_scale: weight_sum(t) as u64, ..t }
    }
}

/// A target with default bands and weights and the given identity.
pub open spec fn default_target(name: u64) -> Target {
    Target {
        name,
        saturation_targets: (0, 50, 100),
        lightness_targets: (0, 50, 100),
        weights: (WEIGHT_SATURATION, WEIGHT_LUMA, WEIGHT_POPULATION),
        weight_scale: 100,
        is_exclusive: true,
    }
}

/// A preset target: fixed identity and bands, default weights.
pub open spec fn preset(name: u64, saturation: (u32, u32, u32), lightness: (u32, u32, u32)) -> Target {
    Target { saturation_targets: saturation, lightness_targets: lightness, ..default_target(name) }
}

pub open spec fn vibrant_band() -> (u32, u32, u32) {
    (MIN_VIBRANT_SATURATION, TARGET_VIBRANT_SATURATION, 100)
}

pub open spec fn muted_band() -> (u32, u32, u32) {
    (0, TARGET_MUTED_SATURATION, MAX_MUTED_SATURATION)
}

pub open spec fn light_band() -> (u32, u32, u32) {
    (MIN_LIGHT_LUMA, TARGET_LIGHT_LUMA, 100)
}

pub open spec fn normal_band() -> (u32, u32, u32) {
    (MIN_NORMAL_LUMA, TARGET_NORMAL_LUMA, MAX_NORMAL_LUMA)
}

pub open spec fn dark_band() -> (u32, u32, u32) {
    (0, TARGET_DARK_LUMA, MAX_DARK_LUMA)
}

/// The six preset targets: light, normal and dark, vibrant then muted.
pub open spec fn preset_targets() -> Seq<Target> {
    seq![
        preset(0, vibrant_band(), light_band()),
        preset(1, vibrant_band(), normal_band()),
        preset(2, vibrant_band(), dark_band()),
        preset(3, muted_band(), light_band()),
        preset(4, muted_band(), normal_band()),
        preset(5, muted_band(), dark_band()),
    ]
}

/// After normalization the weights add up to one and keep their proportions:
/// each is its raw value divided by the sum of the raw values.
pub proof fn lemma_weight_normalization(t: Target)
    requires
        weight_sum(t) > 0,
        t.weight_scale > 0,
    ensures
        normalized(t).weights.0 + normalized(t).weights.1 + normalized(t).weights.2
            == normalized(t).weight_scale,
        normalized(t).weights.0 * weight_sum(t) == t.weights.0 * normalized(t).weight_scale,
        normalized(t).weights.1 * weight_sum(t) == t.weights.1 * normalized(t).weight_scale,
        normalized(t).weights.2 * weight_sum(t) == t.weights.2 * normalized(t).weight_scale,
{
}

impl Target {
    /// Bands are fractions of one.
    pub open spec fn wf(self) -> bool {
        &&& self.saturation_targets.0 <= 100
        &&& self.saturation_targets.1 <= 100
        &&& self.saturation_targets.2 <= 100
        &&& self.lightness_targets.0 <= 100
        &&& self.lightness_targets.1 <= 100
        &&& self.lightness_targets.2 <= 100
    }

    /// The six preset targets, in the order in which a palette fills them.
    pub fn default_targets() -> (r: [Target; 6])
        ensures
            r@ == preset_targets(),
    {
        let r = [
            Target::light_vibrant(),
            Target::vibrant(),
            Target::dark_vibrant(),
            Target::light_muted(),
            Target::muted(),
            Target::dark_muted(),
        ];
        assert(r@ =~= preset_targets());
        r
    }

    fn with_bands(name: u64, saturation: (u32, u32, u32), lightness: (u32, u32, u32)) -> (r: Target)
        ensures
            r == preset(name, saturation, lightness),
    {
        Target {
            name,
            saturation_targets: saturation,
            lightness_targets: lightness,
            weights: (WEIGHT_SATURATION, WEIGHT_LUMA, WEIGHT_POPULATION),
            weight_scale: 100,
            is_exclusive: true,
        }
    }

    pub fn light_vibrant() -> (r: Target)
        ensures
            r == preset(0, vibrant_band(), light_band()),
    {
        Target::with_bands(
            0,
            (MIN_VIBRANT_SATURATION, TARGET_VIBRANT_SATURATION, 100),
            (MIN_LIGHT_LUMA, TARGET_LIGHT_LUMA, 100),
        )
    }

    pub fn vibrant() -> (r: Target)
        ensures
            r == preset(1, vibrant_band(), normal_band()),
    {
        Target::with_bands(
            1,
            (MIN_VIBRANT_SATURATION, TARGET_VIBRANT_SATURATION, 100),
            (MIN_NORMAL_LUMA, TARGET_NORMAL_LUMA, MAX_NORMAL_LUMA),
        )
    }

    pub fn dark_vibrant() -> (r: Target)
        ensures
            r == preset(2, vibrant_band(), dark_band()),
    {
        Target::with_bands(
            2,
            (MIN_VIBRANT_SATURATION, TARGET_VIBRANT_SATURATION, 100),
            (0, TARGET_DARK_LUMA, MAX_DARK_LUMA),
        )
    }

    pub fn light_muted() -> (r: Target)
        ensures
            r == preset(3, muted_band(), light_band()),
    {
        Target::with_bands(
            3,
            (0, TARGET_MUTED_SATURATION, MAX_MUTED_SATURATION),
            (MIN_LIGHT_LUMA, TARGET_LIGHT_LUMA, 100),
        )
    }

    pub fn muted() -> (r: Target)
        ensures
            r == preset(4, muted_band(), normal_band()),
    {
        Target::with_bands(
            4,
            (0, TARGET_MUTED_SATURATION, MAX_MUTED_SATURATION),
            (MIN_NORMAL_LUMA, TARGET_NORMAL_LUMA, MAX_NORMAL_LUMA),
        )
    }

    pub fn dark_muted() -> (r: Target)
        ensures
            r == preset(5, muted_band(), dark_band()),
    {
        Target::with_bands(
            5,
            (0, TARGET_MUTED_SATURATION, MAX_MUTED_SATURATION),
            (0, TARGET_DARK_LUMA, MAX_DARK_LUMA),
        )
    }

    /// A target with default bands and weights and a fresh random identity.
    pub fn new() -> (r: Target)
        ensures
            r == default_target(r.name),
    {
        let name: u64 = rand::random();
        Target {
            name,
            saturation_targets: (0, 50, 100),
            lightness_targets: (0, 50, 100),
            weights: (WEIGHT_SATURATION, WEIGHT_LUMA, WEIGHT_POPULATION),
            weight_scale: 100,
            is_exclusive: true,
        }
    }

    pub fn id(self) -> (r: u64)
        ensures
            r == self.name,
    {
        self.name
    }

    /// Scales the weights so that they add up to one; all-zero weights stay as they are.
    pub fn normalize_weights(&mut self)
        ensures
            *final(self) == normalized(*old(self)),
    {
        let sum = self.weights.0 as u64 + self.weights.1 as u64 + self.weights.2 as u64;
        if sum != 0 {
            self.weight_scale = sum;
        }
    }

    pub fn minimum_saturation(self) -> (r: Ratio)
        ensures
            r == (Ratio { num: self.saturation_targets.0, den: 100 }),
    {
        Ratio { num: self.saturation_targets.0, den: 100 }
    }

    pub fn target_saturation(self) -> (r: Ratio)
        ensures
            r == (Ratio { num: self.saturation_targets.1, den: 100 }),
    {
        Ratio { num: self.saturation_targets.1, den: 100 }
    }

    pub fn maximum_saturation(self) -> (r: Ratio)
        ensures
            r == (Ratio { num: self.saturation_targets.2, den: 100 }),
    {
        Ratio { num: self.saturation_targets.2, den: 100 }
    }

    pub fn minimum_lightness(self) -> (r: Ratio)
        ensures
            r == (Ratio { num: self.lightness_targets.0, den: 100 }),
    {
        Ratio { num: self.lightness_targets.0, den: 100 }
    }

    pub fn target_lightness(self) -> (r: Ratio)
        ensures
            r == (Ratio { num: self.lightness_targets.1, den: 100 }),
    {
        Ratio { num: self.lightness_targets.1, den: 100 }
    }

    pub fn maximum_lightness(self) -> (r: Ratio)
        ensures
            r == (Ratio { num: self.lightness_targets.2, den: 100 }),
    {
        Ratio { num: self.lightness_targets.2, den: 100 }
    }

    /// The saturation weight as the pair (numerator, denominator).
    pub fn saturation_weight(self) -> (r: (u32, u64))
        ensures
            r == (self.weights.0, self.weight_scale),
    {
        (self.weights.0, self.weight_scale)
    }

    /// The lightness weight as the pair (numerator, denominator).
    pub fn lightness_weight(self) -> (r: (u32, u64))
        ensures
            r == (self.weights.1, self.weight_scale),
    {
        (self.weights.1, self.weight_scale)
    }

    /// The population weight as the pair (numerator, denominator).
    pub fn population_weight(self) -> (r: (u32, u64))
        ensures
            r == (self.weights.2, self.weight_scale),
    {
        (self.weights.2, self.weight_scale)
    }

    pub fn is_exclusive(self) -> (r: bool)
        ensures
            r == self.is_exclusive,
    {
        self.is_exclusive
    }
}

impl Default for Target {
    fn default() -> (r: Target)
        ensures
            r == default_target(r.name),
    {
        Target::new()
    }
}

impl PartialEq for Target {
    fn eq(&self, other: &Target) -> (r: bool)
        ensures
            r == (self.name == other.name),
    {
        self.name == other.name
    }
}

impl vstd::std_specs::cmp::PartialEqSpecImpl for Target {
    open spec fn obeys_eq_spec() -> bool {
        true
    }

    open spec fn eq_spec(&self, other: &Target) -> bool {
        self.name == other.name
    }
}

impl Eq for Target {

}

} // verus!
