use vstd::prelude::*;
use crate::amount::{SCALE, clamp_usize, floor_div, ceil_div};
use crate::text::{decimal_text, push_decimal};

verus! {

/// Ownership tier: the share of the outstanding supply that a holding
/// represents, banded on powers of ten. `S` is the top tier (at least one
/// hundredth of the supply), `G` the bottom one (under one hundred-millionth).
#[derive(Debug, Clone, Copy, PartialEq, Eq, Structural)]
pub enum OwnerLevel {
    S,
    A,
    B,
    C,
    D,
    E,
    F,
    G,
}

/// Ownership of one security: the tier, the whole units held above the tier's
/// floor, and the whole units missing to reach the tier's ceiling.
#[derive(Debug, Clone, Copy, PartialEq, Eq, Structural)]
pub struct Ownership {
    pub level: OwnerLevel,
    pub excess_shares: usize,
    pub deficit_shares: usize,
}

impl OwnerLevel {
    /// The tier's floor fraction, as ticks held per outstanding unit: a holding
    /// of `q` ticks in a supply of `n` units reaches the floor when
    /// `q >= n * floor_per_unit()`.
    pub open spec fn floor_per_unit(self) -> int {
        match self {
            OwnerLevel::S => 1_000_000,
            OwnerLevel::A => 100_000,
            OwnerLevel::B => 10_000,
            OwnerLevel::C => 1_000,
            OwnerLevel::D => 100,
            OwnerLevel::E => 10,
            OwnerLevel::F => 1,
            OwnerLevel::G => 0,
        }
    }

    /// The tier's ceiling fraction, as ticks held per outstanding unit. The top
    /// tier's ceiling is the whole supply.
    pub open spec fn ceiling_per_unit(self) -> int {
        match self {
            OwnerLevel::S => SCALE as int,
            OwnerLevel::A => 1_000_000,
            OwnerLevel::B => 100_000,
            OwnerLevel::C => 10_000,
            OwnerLevel::D => 1_000,
            OwnerLevel::E => 100,
            OwnerLevel::F => 10,
            OwnerLevel::G => 1,
        }
    }

    /// Ticks held at the tier's floor, for a supply of `outstanding` units.
    pub open spec fn floor_ticks(self, outstanding: int) -> int {
        self.floor_per_unit() * outstanding
    }

    /// Ticks held at the tier's ceiling, for a supply of `outstanding` units.
    pub open spec fn ceiling_ticks(self, outstanding: int) -> int {
        self.ceiling_per_unit() * outstanding
    }

    /// Tier of a holding of `quantity` ticks in a supply of `outstanding`
    /// units: the highest tier whose floor the holding reaches.
    pub open spec fn spec_new(quantity: int, outstanding: int) -> OwnerLevel {
        if quantity < outstanding {
            OwnerLevel::G
        } else if quantity < 10 * outstanding {
            OwnerLevel::F
        } else if quantity < 100 * outstanding {
            OwnerLevel::E
        } else if quantity < 1_000 * outstanding {
            OwnerLevel::D
        } else if quantity < 10_000 * outstanding {
            OwnerLevel::C
        } else if quantity < 100_000 * outstanding {
            OwnerLevel::B
        } else if quantity < 1_000_000 * outstanding {
            OwnerLevel::A
        } else {
            OwnerLevel::S
        }
    }

    /// Tier of a holding of `quantity` ticks in a supply of `outstanding` units.
    pub fn new(quantity: i128, outstanding: usize) -> (r: OwnerLevel)
        ensures
            r == OwnerLevel::spec_new(quantity as int, outstanding as int),
    {
        let n = outstanding as i128;
        if quantity < n {
            OwnerLevel::G
        } else if quantity < 10 * n {
            OwnerLevel::F
        } else if quantity < 100 * n {
            OwnerLevel::E
        } else if quantity < 1_000 * n {
            OwnerLevel::D
        } else if quantity < 10_000 * n {
            OwnerLevel::C
        } else if quantity < 100_000 * n {
            OwnerLevel::B
        } else if quantity < 1_000_000 * n {
            OwnerLevel::A
        } else {
            OwnerLevel::S
        }
    }

    /// The tier's one-letter label.
    pub open spec fn spec_label(self) -> Seq<char> {
        match self {
            OwnerLevel::S => "S"@,
            OwnerLevel::A => "A"@,
            OwnerLevel::B => "B"@,
            OwnerLevel::C => "C"@,
            OwnerLevel::D => "D"@,
            OwnerLevel::E => "E"@,
            OwnerLevel::F => "F"@,
            OwnerLevel::G => "G"@,
        }
    }

    /// The tier's one-letter label.
    pub fn label(&self) -> (r: &'static str)
        ensures
            r@ == self.spec_label(),
    {
        match self {
            OwnerLevel::S => "S",
            OwnerLevel::A => "A",
            OwnerLevel::B => "B",
            OwnerLevel::C => "C",
            OwnerLevel::D => "D",
            OwnerLevel::E => "E",
            OwnerLevel::F => "F",
            OwnerLevel::G => "G",
        }
    }

    /// Ticks held at the tier's floor, for a supply of `outstanding` units.
    pub fn floor(&self, outstanding: usize) -> (r: i128)
        ensures
            r == self.floor_ticks(outstanding as int),
    {
        let n = outstanding as i128;
        match self {
            OwnerLevel::S => 1_000_000 * n,
            OwnerLevel::A => 100_000 * n,
            OwnerLevel::B => 10_000 * n,
            OwnerLevel::C => 1_000 * n,
            OwnerLevel::D => 100 * n,
            OwnerLevel::E => 10 * n,
            OwnerLevel::F => n,
            OwnerLevel::G => 0,
        }
    }

    /// Ticks held at the tier's ceiling, for a supply of `outstanding` units.
    pub fn ceiling(&self, outstanding: usize) -> (r: i128)
        ensures
            r == self.ceiling_ticks(outstanding as int),
    {
        let n = outstanding as i128;
        match self {
            OwnerLevel::S => (SCALE as i128) * n,
            OwnerLevel::A => 1_000_000 * n,
            OwnerLevel::B => 100_000 * n,
            OwnerLevel::C => 10_000 * n,
            OwnerLevel::D => 1_000 * n,
            OwnerLevel::E => 100 * n,
            OwnerLevel::F => 10 * n,
            OwnerLevel::G => n,
        }
    }
}

impl Ownership {
    /// Display form: the tier label, a slash, the units above the floor, an
    /// arrow and the units missing to the ceiling.
    pub open spec fn spec_text(self) -> Seq<char> {
        self.level.spec_label() + "\u{29F8}"@ + decimal_text(self.excess_shares as nat)
            + " \u{2192} "@ + decimal_text(self.deficit_shares as nat)
    }

    /// The display form of the ownership, such as `S\u{29F8}14 \u{2192} 85`.
    pub fn to_text(&self) -> (r: String)
        ensures
            r@ == self.spec_text(),
    {
        let mut out = String::from_str(self.level.label());
        out.append("\u{29F8}");
        push_decimal(&mut out, self.excess_shares as u128);
        out.append(" \u{2192} ");
        push_decimal(&mut out, self.deficit_shares as u128);
        out
    }

    /// Ownership of a holding of `quantity` ticks in a supply of `outstanding`
    /// units: its tier, `floor(held - floor)` and `ceil(ceiling - held)` in
    /// whole units, each clamped into the range of a `usize`.
    pub open spec fn spec_new(quantity: int, outstanding: int) -> Ownership {
        let level = OwnerLevel::spec_new(quantity, outstanding);
        Ownership {
            level,
            excess_shares: clamp_usize(
                floor_div(quantity - level.floor_ticks(outstanding), SCALE as int),
            ) as usize,
            deficit_shares: clamp_usize(
                ceil_div(level.ceiling_ticks(outstanding) - quantity, SCALE as int),
            ) as usize,
        }
    }

    /// Classifies a holding of `quantity` ticks in a supply of `outstanding`
    /// units. A supply of zero has no meaningful fraction and is not allowed.
    pub fn new(quantity: i128, outstanding: usize) -> (r: Ownership)
        requires
            outstanding > 0,
        ensures
            r == Ownership::spec_new(quantity as int, outstanding as int),
    {
        let level = OwnerLevel::new(quantity, outstanding);
        let floor_ticks = level.floor(outstanding);
        let ceiling_ticks = level.ceiling(outstanding);
        let scale = SCALE as i128;
        let max_units = usize::MAX as i128;
        let excess_shares: usize = if quantity <= floor_ticks {
            0
        } else {
            let units = (quantity - floor_ticks) / scale;
            if units > max_units {
                usize::MAX
            } else {
                units as usize
            }
        };
        let deficit_shares: usize = if quantity >= ceiling_ticks {
            0
        } else if quantity <= ceiling_ticks - max_units * scale {
            usize::MAX
        } else {
            let gap = ceiling_ticks - quantity;
            let units = if gap % scale == 0 {
                gap / scale
            } else {
                gap / scale + 1
            };
            units as usize
        };
        Ownership { level, excess_shares, deficit_shares }
    }
}

/// A holding between nothing and the whole supply lands in the tier whose band
/// contains its fraction of the supply: at or above the tier's floor, and below
/// its ceiling (at most the whole supply for the top tier).
pub proof fn lemma_level_band(quantity: int, outstanding: int)
    requires
        outstanding > 0,
        0 <= quantity <= outstanding * SCALE,
    ensures
        OwnerLevel::spec_new(quantity, outstanding).floor_ticks(outstanding) <= quantity,
        OwnerLevel::spec_new(quantity, outstanding) != OwnerLevel::S ==> quantity
            < OwnerLevel::spec_new(quantity, outstanding).ceiling_ticks(outstanding),
        quantity <= OwnerLevel::spec_new(quantity, outstanding).ceiling_ticks(outstanding),
{
    assert(outstanding * SCALE == (SCALE as int) * outstanding) by (nonlinear_arith);
}

} // verus!
