use crate::bbox::{is_nan, magnitude, order_key};
use crate::raw::ChannelRule;
use vstd::arithmetic::power2::{lemma2_to64, lemma_pow2_strictly_increases, pow2};
use vstd::bits::lemma_u32_shr_is_div;
use vstd::prelude::*;

verus! {

/// The bits of the number one in the 32-bit binary floating format.
pub const ONE: u32 = 0x3f80_0000;

/// The bits of the number 255 in the 32-bit binary floating format.
pub const FULL: u32 = 0x437f_0000;

/// The exponent field of a value: the eight bits behind the sign.
pub open spec fn exponent_of(bits: u32) -> nat {
    (magnitude(bits) / 0x80_0000) as nat
}

/// The fraction field of a value: its lowest 23 bits.
pub open spec fn fraction_of(bits: u32) -> nat {
    (magnitude(bits) % 0x80_0000) as nat
}

/// The whole part of the number that a value from one up to 2 to the 24
/// writes. The number is its fraction behind a leading one, 24 bits in all,
/// times 2 to the power of the exponent less 150; what falls below the point
/// is dropped.
pub open spec fn whole_part(bits: u32) -> nat {
    (0x80_0000 + fraction_of(bits)) / pow2((150 - exponent_of(bits)) as nat)
}

/// The byte that a channel value turns into: the number it writes, held to
/// the range from 0 to 255 and then rounded down. A value that writes no
/// number gives 0.
pub open spec fn channel_of(bits: u32) -> u32 {
    if bits >= 0x8000_0000 || is_nan(bits) || bits < ONE {
        0
    } else if bits >= FULL {
        255
    } else {
        whole_part(bits) as u32
    }
}

/// The value writes a number that is at most one.
pub open spec fn at_most_one(bits: u32) -> bool {
    !is_nan(bits) && order_key(bits) <= order_key(ONE)
}

/// Whether three colour channels hold fractions of one, to be scaled by 255
/// before they turn into bytes.
pub open spec fn scaled(rule: ChannelRule, r: u32, g: u32, b: u32) -> bool {
    match rule {
        ChannelRule::Bytes => false,
        ChannelRule::Unit => true,
        ChannelRule::ByValue => at_most_one(r) && at_most_one(g) && at_most_one(b),
    }
}

/// Turns a channel value, given by its bits, into a byte: 0 for what is not
/// above zero, 255 for what is not below 255, and else the whole part, never
/// rounded up.
pub fn clamp255(bits: u32) -> (c: u32)
    ensures
        c == channel_of(bits),
        c <= 255,
{
    if bits >= 0x8000_0000 || bits > 0x7f80_0000 || bits < ONE {
        0
    } else if bits >= FULL {
        255
    } else {
        let e: u32 = bits / 0x80_0000;
        let m: u32 = 0x80_0000 + bits % 0x80_0000;
        let shift: u32 = 150 - e;
        proof {
            lemma_u32_shr_is_div(m, shift);
            lemma2_to64();
            if shift > 16 {
                lemma_pow2_strictly_increases(16, shift as nat);
            }
            assert(m as nat / pow2(shift as nat) <= 255) by (nonlinear_arith)
                requires
                    m < 0x100_0000,
                    pow2(shift as nat) >= 0x1_0000,
            ;
        }
        m >> shift
    }
}

fn is_at_most_one(bits: u32) -> (b: bool)
    ensures
        b == at_most_one(bits),
{
    if bits >= 0x8000_0000 {
        bits - 0x8000_0000 <= 0x7f80_0000
    } else {
        bits <= ONE
    }
}

/// Tells whether three colour channels, given by their bits, are to be scaled
/// by 255 before they turn into bytes.
pub fn scales_channels(rule: ChannelRule, r: u32, g: u32, b: u32) -> (s: bool)
    ensures
        s == scaled(rule, r, g, b),
{
    match rule {
        ChannelRule::Bytes => false,
        ChannelRule::Unit => true,
        ChannelRule::ByValue => is_at_most_one(r) && is_at_most_one(g) && is_at_most_one(b),
    }
}

} // verus!
