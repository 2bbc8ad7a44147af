//! The static table of dissolve rates: flavor by color.

use vstd::prelude::*;
use vstd::pervasive::unreached;
use crate::text::same_text;

verus! {

/// The rates of one flavor, one per color, in thickness dissolved per tick.
#[derive(Debug, Clone, Copy, PartialEq, Eq, Structural)]
pub struct Color {
    pub red: u32,
    pub green: u32,
    pub blue: u32,
}

/// The rates of every flavor.
#[derive(Debug, Clone, Copy, PartialEq, Eq, Structural)]
pub struct AbilityMap {
    pub general: Color,
    pub vector: Color,
    pub matrix: Color,
}

impl Color {
    /// The rate recorded under a color's name, if the name is one of the
    /// three that the table knows.
    pub open spec fn lookup(self, color: Seq<char>) -> Option<u32> {
        if color == "Red"@ {
            Some(self.red)
        } else if color == "Green"@ {
            Some(self.green)
        } else if color == "Blue"@ {
            Some(self.blue)
        } else {
            None
        }
    }

    /// All three rates are positive.
    pub open spec fn positive(self) -> bool {
        self.red > 0 && self.green > 0 && self.blue > 0
    }

    /// Looks a color up by name.
    pub fn get(&self, color: &str) -> (rate: Option<&u32>)
        ensures
            match rate {
                Some(r) => self.lookup(color@) == Some(*r),
                None => self.lookup(color@) is None,
            },
    {
        if same_text(color, "Red") {
            Some(&self.red)
        } else if same_text(color, "Green") {
            Some(&self.green)
        } else if same_text(color, "Blue") {
            Some(&self.blue)
        } else {
            None
        }
    }

    /// The rate of a color that the table is known to hold.
    pub fn index(&self, s: &str) -> (rate: &u32)
        requires
            self.lookup(s@) is Some,
        ensures
            self.lookup(s@) == Some(*rate),
    {
        match self.get(s) {
            Some(rate) => rate,
            None => unreached(),
        }
    }

    /// Whether all three rates are positive.
    pub fn is_positive(&self) -> (ok: bool)
        ensures
            ok == self.positive(),
    {
        self.red > 0 && self.green > 0 && self.blue > 0
    }
}

impl AbilityMap {
    /// The rates recorded under a flavor's name, if the name is one of the
    /// three that the table knows.
    pub open spec fn lookup(self, flavor: Seq<char>) -> Option<Color> {
        if flavor == "General"@ {
            Some(self.general)
        } else if flavor == "Vector"@ {
            Some(self.vector)
        } else if flavor == "Matrix"@ {
            Some(self.matrix)
        } else {
            None
        }
    }

    /// The rate at which a flavor dissolves a color, where the table holds
    /// both names.
    pub open spec fn rate(self, flavor: Seq<char>, color: Seq<char>) -> Option<u32> {
        match self.lookup(flavor) {
            Some(rates) => rates.lookup(color),
            None => None,
        }
    }

    /// The table holds a positive rate for this flavor and color.
    pub open spec fn dissolves(self, flavor: Seq<char>, color: Seq<char>) -> bool {
        match self.rate(flavor, color) {
            Some(rate) => rate > 0,
            None => false,
        }
    }

    /// Every rate of the table is positive.
    pub open spec fn positive(self) -> bool {
        self.general.positive() && self.vector.positive() && self.matrix.positive()
    }

    /// Looks a flavor up by name.
    pub fn get(&self, flavor: &str) -> (rates: Option<&Color>)
        ensures
            match rates {
                Some(c) => self.lookup(flavor@) == Some(*c),
                None => self.lookup(flavor@) is None,
            },
    {
        if same_text(flavor, "General") {
            Some(&self.general)
        } else if same_text(flavor, "Vector") {
            Some(&self.vector)
        } else if same_text(flavor, "Matrix") {
            Some(&self.matrix)
        } else {
            None
        }
    }

    /// The rates of a flavor that the table is known to hold.
    pub fn index(&self, s: &str) -> (rates: &Color)
        requires
            self.lookup(s@) is Some,
        ensures
            self.lookup(s@) == Some(*rates),
    {
        match self.get(s) {
            Some(rates) => rates,
            None => unreached(),
        }
    }

    /// Looks up the rate of a flavor for a color; `None` where either name
    /// is unknown.
    pub fn rate_of(&self, flavor: &str, color: &str) -> (rate: Option<u32>)
        ensures
            rate == self.rate(flavor@, color@),
    {
        match self.get(flavor) {
            Some(rates) => match rates.get(color) {
                Some(rate) => Some(*rate),
                None => None,
            },
            None => None,
        }
    }

    /// Whether every rate of the table is positive, as a usable table must be.
    pub fn is_positive(&self) -> (ok: bool)
        ensures
            ok == self.positive(),
    {
        self.general.is_positive() && self.vector.is_positive() && self.matrix.is_positive()
    }
}

} // verus!
