//! Print settings: paper size, cut indicators and bleed.  The page geometry
//! itself is measured in millimetres as floating point and is drawn by the
//! application; this module holds the choices and the card grid.

use vstd::prelude::*;

verus! {

/// The paper the sheet is printed on.
#[derive(Debug, Clone, Copy, PartialEq, Eq, Hash, Structural)]
pub enum PrintSize {
    A4,
    UsLetter,
}

impl Default for PrintSize {
    fn default() -> (r: Self)
        ensures
            r == PrintSize::A4,
    {
        PrintSize::A4
    }
}

impl PrintSize {
    /// The name shown for the paper size.
    pub fn label(&self) -> (r: &'static str)
        ensures
            r@ == match self {
                PrintSize::A4 => "A4"@,
                PrintSize::UsLetter => "US Letter"@,
            },
    {
        match self {
            PrintSize::A4 => "A4",
            PrintSize::UsLetter => "US Letter",
        }
    }
}

/// How the cutting guides are drawn.
#[derive(Debug, Clone, Copy, PartialEq, Eq, Hash, Structural)]
pub enum CutIndicator {
    Lines,
    Marks,
    /// No cutting guides (shown as "None").
    Off,
}

impl Default for CutIndicator {
    fn default() -> (r: Self)
        ensures
            r == CutIndicator::Lines,
    {
        CutIndicator::Lines
    }
}

impl CutIndicator {
    /// The name shown for the cut indicator.
    pub fn label(&self) -> (r: &'static str)
        ensures
            r@ == match self {
                CutIndicator::Lines => "Lines"@,
                CutIndicator::Marks => "Marks"@,
                CutIndicator::Off => "None"@,
            },
    {
        match self {
            CutIndicator::Lines => "Lines",
            CutIndicator::Marks => "Marks",
            CutIndicator::Off => "None",
        }
    }
}

/// How much bleed each card gets.
#[derive(Debug, Clone, Copy, PartialEq, Eq, Hash, Structural)]
pub enum BleedMode {
    /// No bleed (shown as "None").
    Off,
    Narrow,
    Medium,
    Wide,
}

impl Default for BleedMode {
    fn default() -> (r: Self)
        ensures
            r == BleedMode::Off,
    {
        BleedMode::Off
    }
}

impl BleedMode {
    /// The name shown for the bleed mode.
    pub fn label(&self) -> (r: &'static str)
        ensures
            r@ == match self {
                BleedMode::Off => "None"@,
                BleedMode::Narrow => "Narrow"@,
                BleedMode::Medium => "Medium"@,
                BleedMode::Wide => "Wide"@,
            },
    {
        match self {
            BleedMode::Off => "None",
            BleedMode::Narrow => "Narrow",
            BleedMode::Medium => "Medium",
            BleedMode::Wide => "Wide",
        }
    }
}

/// The print settings of a sheet.
#[derive(Debug, Clone, Copy, PartialEq, Eq, Hash, Structural)]
pub struct PrintConfig {
    pub print_size: PrintSize,
    pub cut_indicator: CutIndicator,
    pub bleed_mode: BleedMode,
}

impl Default for PrintConfig {
    fn default() -> (r: Self)
        ensures
            r == (PrintConfig {
                print_size: PrintSize::A4,
                cut_indicator: CutIndicator::Lines,
                bleed_mode: BleedMode::Off,
            }),
    {
        PrintConfig {
            print_size: PrintSize::default(),
            cut_indicator: CutIndicator::default(),
            bleed_mode: BleedMode::default(),
        }
    }
}

/// The cell of slot `n` on a sheet of three by three cards: its column from
/// the left and its row from the bottom (the first slot is top left).
pub fn slot_cell(n: usize) -> (r: (usize, usize))
    requires
        n < 9,
    ensures
        r.0 == n % 3,
        r.1 == 2 - n / 3,
        r.0 < 3,
        r.1 < 3,
{
    (n % 3, 2 - n / 3)
}

} // verus!
