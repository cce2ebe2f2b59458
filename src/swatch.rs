use vstd::prelude::*;
use crate::color::{hsl_of, rgb_to_hsl, Hsl, Rgb};

verus! {

/// A representative colour and the number of pixels it stands for.
#[derive(Clone, Copy, Debug, PartialEq, Eq, Structural)]
pub struct Swatch {
    pub red: u8,
    pub green: u8,
    pub blue: u8,
    pub population: u32,
}

impl Swatch {
    /// The swatch's colour.
    pub open spec fn color(self) -> Rgb {
        (self.red, self.green, self.blue)
    }

    /// The number of pixels the swatch stands for.
    pub open spec fn pop(self) -> nat {
        self.population as nat
    }

    pub fn new(rgb: Rgb, population: u32) -> (r: Swatch)
        ensures
            r.color() == rgb,
            r.pop() == population,
    {
        let (red, green, blue) = rgb;
        Swatch { red, green, blue, population }
    }

    pub fn rgb(self) -> (r: Rgb)
        ensures
            r == self.color(),
    {
        (self.red, self.green, self.blue)
    }

    /// The swatch's colour in HSL.
    pub fn hsl(self) -> (r: Hsl)
        ensures
            r == hsl_of(self.color()),
    {
        rgb_to_hsl(self.rgb())
    }

    pub fn population(self) -> (r: u32)
        ensures
            r == self.pop(),
    {
        self.population
    }
}

} // verus!
