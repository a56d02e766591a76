use vstd::prelude::*;
use vstd::string::*;

verus! {

/// Bit `k` of `a`, counted from the least significant bit; there is no bit
/// at position 32 or above.
pub open spec fn bit_at(a: u32, k: u32) -> bool {
    k < 32 && (a >> k) & 1 == 1
}

/// Tells whether bit `k` of `a` is 1; `k = 0` is the least significant bit.
pub fn is_bit_set_u32(a: u32, k: u32) -> (set: bool)
    ensures
        set == bit_at(a, k),
{
    if k >= 32 {
        return false;
    }
    assert((a & (1u32 << k)) != 0 <==> (a >> k) & 1 == 1) by (bit_vector)
        requires
            k < 32,
    ;
    (a & (1u32 << k)) != 0
}

/// Gives `a` with bit `k` set to 1; `k = 0` is the least significant bit.
/// With `k` at 32 or above there is no such bit, and `a` comes back.
pub fn set_bit_u32(a: u32, k: u32) -> (r: u32)
    ensures
        r == if k < 32 {
            a | (1u32 << k)
        } else {
            a
        },
        forall|j: u32| #[trigger] bit_at(r, j) == (bit_at(a, j) || (j == k && k < 32)),
{
    if k >= 32 {
        return a;
    }
    let r = a | (1u32 << k);
    assert forall|j: u32| #[trigger] bit_at(r, j) == (bit_at(a, j) || (j == k && k < 32)) by {
        if j < 32 {
            assert(((a | (1u32 << k)) >> j) & 1 == 1 <==> ((a >> j) & 1 == 1 || j == k))
                by (bit_vector)
                requires
                    k < 32,
                    j < 32,
            ;
        }
    }
    r
}

/// The number of bits below position `n` that are 1 in `a`.
pub open spec fn ones_below(a: u32, n: nat) -> nat
    decreases n,
{
    if n == 0 {
        0
    } else {
        ones_below(a, (n - 1) as nat) + if bit_at(a, (n - 1) as u32) {
            1nat
        } else {
            0nat
        }
    }
}

/// The number of positions below `n` at which `a` and `b` differ.
pub open spec fn differing_below(a: u32, b: u32, n: nat) -> nat
    decreases n,
{
    if n == 0 {
        0
    } else {
        differing_below(a, b, (n - 1) as nat) + if bit_at(a, (n - 1) as u32) != bit_at(
            b,
            (n - 1) as u32,
        ) {
            1nat
        } else {
            0nat
        }
    }
}

/// The bits of `a ^ b` that are 1 stand where `a` and `b` differ.
pub proof fn lemma_xor_differs(a: u32, b: u32, n: nat)
    requires
        n <= 32,
    ensures
        ones_below(a ^ b, n) == differing_below(a, b, n),
    decreases n,
{
    if n > 0 {
        lemma_xor_differs(a, b, (n - 1) as nat);
        let k = (n - 1) as u32;
        assert((((a ^ b) >> k) & 1 == 1) <==> (((a >> k) & 1 == 1) != ((b >> k) & 1 == 1)))
            by (bit_vector)
            requires
                k < 32,
        ;
    }
}

/// `u32::count_ones`: the number of bits that are 1 in the binary form of
/// the number.
pub assume_specification[ u32::count_ones ](x: u32) -> (n: u32)
    ensures
        n == ones_below(x, 32),
;

/// The Hamming distance of two numbers: at how many of the 32 positions
/// their bits differ.
pub fn hamming_distance_u32(a: u32, b: u32) -> (d: u32)
    ensures
        d == differing_below(a, b, 32),
        d <= 32,
{
    proof {
        lemma_xor_differs(a, b, 32);
        lemma_ones_bound(a ^ b, 32);
    }
    (a ^ b).count_ones()
}

/// No more bits are 1 than there are bits.
pub proof fn lemma_ones_bound(a: u32, n: nat)
    ensures
        ones_below(a, n) <= n,
    decreases n,
{
    if n > 0 {
        lemma_ones_bound(a, (n - 1) as nat);
    }
}

/// The powers of two of the bits below position `n` that are 1 in `a`,
/// from the least on.
pub open spec fn powers_below(a: u32, n: nat) -> Seq<u32>
    decreases n,
{
    if n == 0 {
        Seq::empty()
    } else if bit_at(a, (n - 1) as u32) {
        powers_below(a, (n - 1) as nat).push(1u32 << ((n - 1) as u32))
    } else {
        powers_below(a, (n - 1) as nat)
    }
}

/// The numbers of a row, added up.
pub open spec fn sum(s: Seq<u32>) -> nat
    decreases s.len(),
{
    if s.len() == 0 {
        0
    } else {
        sum(s.drop_last()) + s.last() as nat
    }
}

/// The powers of two that add up to `a`: 2 to the `k` for each bit `k` that
/// is 1, from the least on.
pub fn powers_of_two_u32(a: u32) -> (out: Vec<u32>)
    ensures
        out@ == powers_below(a, 32),
        sum(out@) == a,
{
    let mut out: Vec<u32> = Vec::new();
    let mut k: u32 = 0;
    while k < 32
        invariant
            k <= 32,
            out@ == powers_below(a, k as nat),
        decreases 32 - k,
    {
        if ((a >> k) & 1) == 1 {
            out.push(1u32 << k);
        }
        k += 1;
    }
    proof {
        lemma_powers_sum(a, 32);
    }
    out
}

/// The `n` lowest bits of `a`, as a number.
pub open spec fn low_bits(a: u32, n: nat) -> u32 {
    if n >= 32 {
        a
    } else {
        a & (((1u32 << (n as u32)) - 1) as u32)
    }
}

/// The powers of two of the bits below `n` add up to the number that these
/// bits write.
pub proof fn lemma_powers_sum(a: u32, n: nat)
    requires
        n <= 32,
    ensures
        sum(powers_below(a, n)) == low_bits(a, n),
    decreases n,
{
    if n == 0 {
        assert(a & (((1u32 << 0u32) - 1) as u32) == 0) by (bit_vector);
    } else {
        lemma_powers_sum(a, (n - 1) as nat);
        let k = (n - 1) as u32;
        let rest = powers_below(a, (n - 1) as nat);
        let low = low_bits(a, (n - 1) as nat);
        assert(low == a & (((1u32 << k) - 1) as u32));
        if bit_at(a, k) {
            assert(powers_below(a, n).drop_last() =~= rest);
            if n == 32 {
                assert(a == (a & (((1u32 << k) - 1) as u32)) + (1u32 << k)) by (bit_vector)
                    requires
                        k == 31,
                        (a >> k) & 1 == 1,
                ;
            } else {
                assert(a & (((1u32 << ((k + 1) as u32)) - 1) as u32) == (a & (((1u32 << k) - 1) as u32)) + (
                1u32 << k)) by (bit_vector)
                    requires
                        k < 31,
                        (a >> k) & 1 == 1,
                ;
            }
        } else {
            if n == 32 {
                assert(a == a & (((1u32 << k) - 1) as u32)) by (bit_vector)
                    requires
                        k == 31,
                        (a >> k) & 1 != 1,
                ;
            } else {
                assert(a & (((1u32 << ((k + 1) as u32)) - 1) as u32) == a & (((1u32 << k) - 1) as u32))
                    by (bit_vector)
                    requires
                        k < 31,
                        (a >> k) & 1 != 1,
                ;
            }
        }
    }
}


/// `String::push`: the character is added behind the others.
pub assume_specification[ String::push ](s: &mut String, ch: char)
    ensures
        final(s)@ == old(s)@.push(ch),
;

/// The character that writes a digit below sixteen, in capitals.
pub open spec fn hex_digit(d: u32) -> char {
    if d < 10 {
        ((0x30 + d) as u8) as char
    } else {
        ((0x37 + d) as u8) as char
    }
}

/// The decimal digits of a number, without leading zeros.
pub open spec fn decimal_text(v: nat) -> Seq<char>
    decreases v,
{
    if v < 10 {
        seq![hex_digit(v as u32)]
    } else {
        decimal_text(v / 10).push(hex_digit((v % 10) as u32))
    }
}

/// A number as `0x` and eight hexadecimal digits, in capitals.
pub open spec fn hex_text(v: u32) -> Seq<char> {
    "0x"@ + Seq::new(8, |i: int| hex_digit((v >> ((28 - 4 * i) as u32)) & 0xf))
}

/// The 32 bits of a number from the highest on, in groups of four with `_`
/// between them.
pub open spec fn bin32_text(v: u32) -> Seq<char> {
    Seq::new(
        39,
        |j: int|
            if j % 5 == 4 {
                '_'
            } else if bit_at(v, (31 - (4 * (j / 5) + j % 5)) as u32) {
                '1'
            } else {
                '0'
            },
    )
}

/// A line that shows a number under a name, in decimal and in hexadecimal.
pub open spec fn format_line_text(name: Seq<char>, v: u32) -> Seq<char> {
    name + " = "@ + decimal_text(v as nat) + "  ("@ + hex_text(v) + ")\n"@
}

/// A shift count in a column of two characters, flush right.
pub open spec fn padded_shift(shift: u32) -> Seq<char> {
    if shift < 10 {
        " "@ + decimal_text(shift as nat)
    } else {
        decimal_text(shift as nat)
    }
}

/// The report on the shift of `a` to the right by `shift` modulo 32.
pub open spec fn shift_report_text(a: u32, shift: u32) -> Seq<char> {
    let by = shift % 32;
    let r = a >> by;
    "Right shift (u32)\n"@ + "=================\n\n"@ + format_line_text("a"@, a) + "shift = "@
        + decimal_text(by as nat) + "\n\n"@ + "Binary (32-bit)\n"@ + "--------------\n"@
        + "a        = "@ + bin32_text(a) + "\n"@ + "a >> "@ + padded_shift(by) + " = "@
        + bin32_text(r) + "\n\n"@ + "Result\n"@ + "------\n"@ + "dec: "@ + decimal_text(r as nat)
        + "\n"@ + "hex: "@ + hex_text(r) + "\n"@
}

fn digit_char(d: u32) -> (c: char)
    requires
        d < 16,
    ensures
        c == hex_digit(d),
{
    if d < 10 {
        (0x30u8 + d as u8) as char
    } else {
        (0x37u8 + d as u8) as char
    }
}

fn push_decimal(out: &mut String, v: u32)
    ensures
        final(out)@ == old(out)@ + decimal_text(v as nat),
    decreases v,
{
    if v >= 10 {
        push_decimal(out, v / 10);
    }
    out.push(digit_char(v % 10));
    assert(final(out)@ =~= old(out)@ + decimal_text(v as nat));
}

/// Writes a number as `0x` and eight hexadecimal digits, in capitals.
pub fn hex(v: u32) -> (out: String)
    ensures
        out@ == hex_text(v),
{
    let mut out = String::new();
    out.append("0x");
    let mut i: u32 = 0;
    while i < 8
        invariant
            i <= 8,
            out@ == "0x"@ + Seq::new(
                i as nat,
                |k: int| hex_digit((v >> ((28 - 4 * k) as u32)) & 0xf),
            ),
        decreases 8 - i,
    {
        let ghost before = out@;
        let d: u32 = (v >> (28 - 4 * i)) & 0xf;
        assert(d < 16) by (bit_vector)
            requires
                d == (v >> ((28 - 4 * i) as u32)) & 0xf,
        ;
        out.push(digit_char(d));
        i += 1;
        assert(out@ =~= "0x"@ + Seq::new(
            i as nat,
            |k: int| hex_digit((v >> ((28 - 4 * k) as u32)) & 0xf),
        ));
    }
    out
}

/// Writes the 32 bits of a number from the highest on, in groups of four
/// with `_` between them.
pub fn bin32(v: u32) -> (out: String)
    ensures
        out@ == bin32_text(v),
{
    let mut out = String::new();
    let mut j: u32 = 0;
    while j < 39
        invariant
            j <= 39,
            out@ == bin32_text(v).take(j as int),
        decreases 39 - j,
    {
        if j % 5 == 4 {
            out.push('_');
        } else {
            let k: u32 = 31 - (4 * (j / 5) + j % 5);
            out.push(
                if (v >> k) & 1 == 1 {
                    '1'
                } else {
                    '0'
                },
            );
        }
        j += 1;
        assert(out@ =~= bin32_text(v).take(j as int));
    }
    assert(bin32_text(v).take(39) =~= bin32_text(v));
    out
}

/// Writes a line that shows a number under a name, in decimal and in
/// hexadecimal.
pub fn format_line(name: &str, v: u32) -> (out: String)
    ensures
        out@ == format_line_text(name@, v),
{
    let mut out = String::new();
    out.append(name);
    out.append(" = ");
    push_decimal(&mut out, v);
    out.append("  (");
    out.append(hex(v).as_str());
    out.append(")\n");
    assert(out@ =~= format_line_text(name@, v));
    out
}

/// Writes a report on the shift of `a` to the right by `shift` modulo 32:
/// the operands, both numbers in binary, and the result in decimal and in
/// hexadecimal.
pub fn shift_right_report_u32(a: u32, shift: u32) -> (s: String)
    ensures
        s@ == shift_report_text(a, shift),
{
    let shift: u32 = shift % 32;
    let r: u32 = a >> shift;
    let mut s = String::new();
    s.append("Right shift (u32)\n");
    s.append("=================\n\n");
    s.append(format_line("a", a).as_str());
    s.append("shift = ");
    push_decimal(&mut s, shift);
    s.append("\n\n");
    s.append("Binary (32-bit)\n");
    s.append("--------------\n");
    s.append("a        = ");
    s.append(bin32(a).as_str());
    s.append("\n");
    s.append("a >> ");
    if shift < 10 {
        s.append(" ");
    }
    push_decimal(&mut s, shift);
    s.append(" = ");
    s.append(bin32(r).as_str());
    s.append("\n\n");
    s.append("Result\n");
    s.append("------\n");
    s.append("dec: ");
    push_decimal(&mut s, r);
    s.append("\n");
    s.append("hex: ");
    s.append(hex(r).as_str());
    s.append("\n");
    assert(s@ =~= shift_report_text(a, shift));
    s
}

} // verus!
