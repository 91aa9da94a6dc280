//! Lighting effects, their protocol identifiers and their palettes.

use vstd::prelude::*;
use crate::rgb::Rgb;

verus! {

/// Palette of the `Glorious` effect, as `0xRRGGBB`.
pub const GLORIOUS_PALETTE: [u32; 7] = [
    0xFF0000,
    0xFFC400,
    0xFBFF00,
    0x00FF33,
    0x00FBFF,
    0x0004FF,
    0xE600FF,
];

/// Palette of the `SeamlessBreathing` effect: that of `Glorious`.
pub const SEAMLESS_BREATHING_PALETTE: [u32; 7] = GLORIOUS_PALETTE;

/// Palette of the `Breathing` effect; the custom colour comes before it.
pub const BREATHING_PALETTE: [u32; 5] = [0x0AFF7D, 0xFF600A, 0x0AFFE5, 0xFF0AD4, 0xFF0000];

/// Palette of the `Tail` effect.
pub const TAIL_PALETTE: [u32; 6] = [0xFFF60A, 0x0AFF7D, 0xFF600A, 0x0AFFE5, 0xFF0AD4, 0xFF0000];

/// Palette of the `Rave` effect; the custom colour comes before it.
pub const RAVE_PALETTE: [u32; 1] = [0xFFFF00];

/// Palette of the `Wave` effect.
pub const WAVE_PALETTE: [u32; 7] = [
    0xFFF60A,
    0x0AFF7D,
    0xFF600A,
    0x0AFFE5,
    0xFF0AD4,
    0x000000,
    0xFF0000,
];

/// The colours that a table of `0xRRGGBB` values stands for.
pub open spec fn table_colours(table: Seq<u32>) -> Seq<Rgb> {
    Seq::new(table.len(), |k: int| Rgb::spec_from_u32(table[k]))
}

/// Lighting effects corresponding to the options in Glorious Core.
/// Variants with an RGB value require a specified custom colour.
#[derive(Debug, Clone, Copy, PartialEq, Eq, Structural)]
pub enum LightingMode {
    Off,
    Glorious,
    SeamlessBreathing,
    Breathing { col: Rgb },
    SingleColour { col: Rgb },
    BreathingSingleColour { col: Rgb },
    Tail,
    Rave { col: Rgb },
    Wave,
}

impl LightingMode {
    pub open spec fn spec_mode_id(self) -> u8 {
        match self {
            LightingMode::Off => 0x00,
            LightingMode::Glorious => 0x01,
            LightingMode::SeamlessBreathing => 0x02,
            LightingMode::Breathing { .. } => 0x03,
            LightingMode::SingleColour { .. } => 0x04,
            LightingMode::BreathingSingleColour { .. } => 0x05,
            LightingMode::Tail => 0x06,
            LightingMode::Rave { .. } => 0x07,
            LightingMode::Wave => 0x08,
        }
    }

    pub open spec fn spec_num_colours(self) -> u8 {
        match self {
            LightingMode::Off => 0x00,
            LightingMode::Glorious => 0x07,
            LightingMode::SeamlessBreathing => 0x07,
            LightingMode::Breathing { .. } => 0x06,
            LightingMode::SingleColour { .. } => 0x01,
            LightingMode::BreathingSingleColour { .. } => 0x01,
            LightingMode::Tail => 0x06,
            LightingMode::Rave { .. } => 0x02,
            LightingMode::Wave => 0x07,
        }
    }

    /// The custom colour of the modes that take one.
    pub open spec fn custom(self) -> Option<Rgb> {
        match self {
            LightingMode::Breathing { col } => Some(col),
            LightingMode::SingleColour { col } => Some(col),
            LightingMode::BreathingSingleColour { col } => Some(col),
            LightingMode::Rave { col } => Some(col),
            _ => None,
        }
    }

    /// The built-in palette of the mode, as `0xRRGGBB`.
    pub open spec fn table(self) -> Seq<u32> {
        match self {
            LightingMode::Off => Seq::empty(),
            LightingMode::Glorious => GLORIOUS_PALETTE@,
            LightingMode::SeamlessBreathing => SEAMLESS_BREATHING_PALETTE@,
            LightingMode::Breathing { .. } => BREATHING_PALETTE@,
            LightingMode::SingleColour { .. } => Seq::empty(),
            LightingMode::BreathingSingleColour { .. } => Seq::empty(),
            LightingMode::Tail => TAIL_PALETTE@,
            LightingMode::Rave { .. } => RAVE_PALETTE@,
            LightingMode::Wave => WAVE_PALETTE@,
        }
    }

    /// The colours sent for the mode: the custom colour, if the mode takes
    /// one, then the built-in palette in its published order.
    pub open spec fn spec_colours(self) -> Seq<Rgb> {
        match self.custom() {
            Some(col) => seq![col] + table_colours(self.table()),
            None => table_colours(self.table()),
        }
    }

    /// The number of colours sent for a mode is its required palette size.
    pub proof fn lemma_num_colours(self)
        ensures
            self.spec_colours().len() == self.spec_num_colours(),
    {
    }

    /// Returns the associated ID for HID reports.
    pub fn mode_id(&self) -> (id: u8)
        ensures
            id == self.spec_mode_id(),
    {
        match self {
            LightingMode::Off => 0x00,
            LightingMode::Glorious => 0x01,
            LightingMode::SeamlessBreathing => 0x02,
            LightingMode::Breathing { col: _ } => 0x03,
            LightingMode::SingleColour { col: _ } => 0x04,
            LightingMode::BreathingSingleColour { col: _ } => 0x05,
            LightingMode::Tail => 0x06,
            LightingMode::Rave { col: _ } => 0x07,
            LightingMode::Wave => 0x08,
        }
    }

    /// Returns the number of colours required by the given lighting mode.
    pub fn num_colours(&self) -> (n: u8)
        ensures
            n == self.spec_num_colours(),
            n == self.spec_colours().len(),
    {
        match self {
            LightingMode::Off => 0x00,
            LightingMode::Glorious => 0x07,
            LightingMode::SeamlessBreathing => 0x07,
            LightingMode::Breathing { col: _ } => 0x06,
            LightingMode::SingleColour { col: _ } => 0x01,
            LightingMode::BreathingSingleColour { col: _ } => 0x01,
            LightingMode::Tail => 0x06,
            LightingMode::Rave { col: _ } => 0x02,
            LightingMode::Wave => 0x07,
        }
    }

    /// The colours sent for the mode, in wire order.
    pub fn colours(&self) -> (out: Vec<Rgb>)
        ensures
            out@ == self.spec_colours(),
    {
        let mut out: Vec<Rgb> = Vec::new();
        match self {
            LightingMode::Off => {},
            LightingMode::Glorious => {
                push_table(&mut out, &GLORIOUS_PALETTE);
            },
            LightingMode::SeamlessBreathing => {
                push_table(&mut out, &SEAMLESS_BREATHING_PALETTE);
            },
            LightingMode::Breathing { col } => {
                out.push(*col);
                push_table(&mut out, &BREATHING_PALETTE);
            },
            LightingMode::SingleColour { col } => {
                out.push(*col);
            },
            LightingMode::BreathingSingleColour { col } => {
                out.push(*col);
            },
            LightingMode::Tail => {
                push_table(&mut out, &TAIL_PALETTE);
            },
            LightingMode::Rave { col } => {
                out.push(*col);
                push_table(&mut out, &RAVE_PALETTE);
            },
            LightingMode::Wave => {
                push_table(&mut out, &WAVE_PALETTE);
            },
        }
        assert(out@ =~= self.spec_colours());
        out
    }
}

/// Appends the colours of a palette table.
fn push_table(out: &mut Vec<Rgb>, table: &[u32])
    ensures
        final(out)@ == old(out)@ + table_colours(table@),
{
    let mut k: usize = 0;
    while k < table.len()
        invariant
            k <= table@.len(),
            out@ == old(out)@ + table_colours(table@.take(k as int)),
        decreases table@.len() - k,
    {
        out.push(Rgb::from_u32(table[k]));
        assert(table_colours(table@.take(k + 1)) =~= table_colours(table@.take(k as int)).push(
            Rgb::spec_from_u32(table@[k as int]),
        ));
        k += 1;
    }
    assert(table@.take(k as int) =~= table@);
}

} // verus!
