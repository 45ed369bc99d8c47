//! A bar that shows how far something has come.

use vstd::prelude::*;
use crate::message;
use crate::span::Area;

verus! {

/// The bit that tells the sign of a double-precision number.
pub const SIGN_BIT: u64 = 0x8000_0000_0000_0000;

/// The bits of the double-precision number one.
pub const ONE_BITS: u64 = 0x3ff0_0000_0000_0000;

/// The bits of the double-precision infinity. Numbers beyond it are not numbers.
pub const INFINITY_BITS: u64 = 0x7ff0_0000_0000_0000;

/// Whether the bits of a double-precision number stand for no number.
pub open spec fn is_nan(bits: u64) -> bool {
    INFINITY_BITS < bits < SIGN_BIT || bits > SIGN_BIT + INFINITY_BITS
}

/// The nearest ratio between zero and one, in the bits of double-precision numbers. The bits of
/// numbers from zero on are in the order of the numbers.
pub open spec fn clamped(bits: u64) -> u64 {
    if is_nan(bits) {
        bits
    } else if bits > SIGN_BIT {
        0
    } else if ONE_BITS < bits < SIGN_BIT {
        ONE_BITS
    } else {
        bits
    }
}

/// What to show, with the ratio in the bits of a double-precision number.
#[derive(Debug)]
pub struct ProgressBarConfig {
    pub ratio_bits: u64,
    pub label: Option<String>,
    pub use_unicode_weight: bool,
}

/// What a bar is made of: full blocks on blanks, or a thick line on a thin one.
#[derive(Debug, Clone, Copy, PartialEq, Eq, Structural)]
pub enum BarSymbols {
    Blocks,
    Lines,
}

/// A bar to draw.
#[derive(Debug)]
pub struct BarView {
    pub ratio_bits: u64,
    pub symbols: BarSymbols,
    pub label: Option<String>,
}

/// The bar to draw on an area, where there is an area.
pub fn render(area: Area, config: ProgressBarConfig) -> (bar: Option<BarView>)
    requires
        !area.is_flat() ==> !is_nan(config.ratio_bits),
    ensures
        match bar {
            None => area.is_flat(),
            Some(b) => {
                &&& !area.is_flat()
                &&& b.ratio_bits == clamped(config.ratio_bits)
                &&& b.symbols == (if config.use_unicode_weight {
                    BarSymbols::Blocks
                } else {
                    BarSymbols::Lines
                })
                &&& message::opt_text(b.label) == message::opt_text(config.label)
            },
        },
{
    if area.is_empty() {
        return None;
    }
    let ratio_bits: u64 = if config.ratio_bits > SIGN_BIT {
        0
    } else if config.ratio_bits > ONE_BITS && config.ratio_bits < SIGN_BIT {
        ONE_BITS
    } else {
        config.ratio_bits
    };
    let symbols: BarSymbols = if config.use_unicode_weight {
        BarSymbols::Blocks
    } else {
        BarSymbols::Lines
    };
    Some(BarView { ratio_bits, symbols, label: config.label })
}

/// A clamped ratio lies between zero, of either sign, and one; a ratio that lies there is kept.
pub proof fn law_clamped_lies_in_range(bits: u64)
    requires
        !is_nan(bits),
    ensures
        clamped(bits) <= ONE_BITS || clamped(bits) == SIGN_BIT,
        clamped(clamped(bits)) == clamped(bits),
        bits <= ONE_BITS ==> clamped(bits) == bits,
{
}

/// What lies outside the range goes to its nearer end: a number below zero, which has the sign bit
/// set, becomes zero, and one above one becomes one, the infinite ones included.
pub proof fn law_clamped_goes_to_the_nearer_end(bits: u64)
    ensures
        0x8000_0000_0000_0000 < bits <= 0xfff0_0000_0000_0000 ==> clamped(bits) == 0,
        0x3ff0_0000_0000_0000 <= bits <= 0x7ff0_0000_0000_0000 ==> clamped(bits)
            == 0x3ff0_0000_0000_0000,
        bits <= 0x3ff0_0000_0000_0000 || bits == 0x8000_0000_0000_0000 ==> clamped(bits) == bits,
        is_nan(bits) <==> 0x7ff0_0000_0000_0000 < bits < 0x8000_0000_0000_0000 || bits
            > 0xfff0_0000_0000_0000,
{
}

/// A bar is drawn wherever there is an area, with its label as it is and a ratio between nothing and
/// one; a ratio that lies there is drawn as it is.
pub proof fn law_drawn_bar_shows_the_ratio(
    area: Area,
    config: ProgressBarConfig,
    bar: Option<BarView>,
)
    requires
        !is_nan(config.ratio_bits),
        call_ensures(render, (area, config), bar),
    ensures
        bar is None <==> area.width == 0 || area.height == 0,
        bar matches Some(b) ==> {
            &&& b.ratio_bits <= 0x3ff0_0000_0000_0000 || b.ratio_bits == 0x8000_0000_0000_0000
            &&& config.ratio_bits <= 0x3ff0_0000_0000_0000 ==> b.ratio_bits == config.ratio_bits
            &&& 0x3ff0_0000_0000_0000 < config.ratio_bits < 0x8000_0000_0000_0000 ==> b.ratio_bits
                == 0x3ff0_0000_0000_0000
            &&& config.ratio_bits > 0x8000_0000_0000_0000 ==> b.ratio_bits == 0
            &&& b.symbols == BarSymbols::Blocks <==> config.use_unicode_weight
            &&& b.label is Some <==> config.label is Some
            &&& config.label matches Some(label) ==> b.label->0@ == label@
        },
{
}

} // verus!
