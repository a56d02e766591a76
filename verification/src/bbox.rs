use vstd::prelude::*;

verus! {

/// The bits of the positive infinity of the 32-bit binary floating format.
pub const POSITIVE_INFINITY: u32 = 0x7f80_0000;

/// The bits of the negative infinity of the 32-bit binary floating format.
pub const NEGATIVE_INFINITY: u32 = 0xff80_0000;

/// The bits without the sign bit.
pub open spec fn magnitude(bits: u32) -> int {
    if bits >= 0x8000_0000 {
        bits - 0x8000_0000
    } else {
        bits as int
    }
}

/// The bits write no number: the exponent is all ones and the fraction is
/// not zero.
pub open spec fn is_nan(bits: u32) -> bool {
    magnitude(bits) > 0x7f80_0000
}

/// The place of a value in the order of the numbers, as an integer: of two
/// values that write numbers, the one with the smaller key writes the
/// smaller number, and minus zero comes right before plus zero.
pub open spec fn order_key(bits: u32) -> int {
    if bits >= 0x8000_0000 {
        -magnitude(bits) - 1
    } else {
        bits as int
    }
}

/// The lower of two values. A value that writes no number gives way to the
/// other.
pub open spec fn lower(a: u32, b: u32) -> u32 {
    if is_nan(b) {
        a
    } else if is_nan(a) {
        b
    } else if order_key(a) <= order_key(b) {
        a
    } else {
        b
    }
}

/// The higher of two values. A value that writes no number gives way to the
/// other.
pub open spec fn higher(a: u32, b: u32) -> u32 {
    if is_nan(b) {
        a
    } else if is_nan(a) {
        b
    } else if order_key(a) >= order_key(b) {
        a
    } else {
        b
    }
}

/// The lowest of the values of axis `axis` in the first `n` positions, and
/// positive infinity where there is none.
pub open spec fn lowest(center: Seq<u32>, axis: int, n: nat) -> u32
    decreases n,
{
    if n == 0 {
        POSITIVE_INFINITY
    } else {
        lower(lowest(center, axis, (n - 1) as nat), center[3 * (n - 1) + axis])
    }
}

/// The highest of the values of axis `axis` in the first `n` positions, and
/// negative infinity where there is none.
pub open spec fn highest(center: Seq<u32>, axis: int, n: nat) -> u32
    decreases n,
{
    if n == 0 {
        NEGATIVE_INFINITY
    } else {
        higher(highest(center, axis, (n - 1) as nat), center[3 * (n - 1) + axis])
    }
}

/// A box around positions, axis by axis, as the bits of 32-bit binary
/// floating values.
#[derive(Debug, Clone, Copy, PartialEq, Eq, Structural)]
pub struct BoundingBox {
    pub min_x: u32,
    pub min_y: u32,
    pub min_z: u32,
    pub max_x: u32,
    pub max_y: u32,
    pub max_z: u32,
}

impl BoundingBox {
    /// The lower bound on an axis: 0 for x, 1 for y, 2 for z.
    pub open spec fn min(self, axis: int) -> u32 {
        if axis == 0 {
            self.min_x
        } else if axis == 1 {
            self.min_y
        } else {
            self.min_z
        }
    }

    /// The upper bound on an axis: 0 for x, 1 for y, 2 for z.
    pub open spec fn max(self, axis: int) -> u32 {
        if axis == 0 {
            self.max_x
        } else if axis == 1 {
            self.max_y
        } else {
            self.max_z
        }
    }

    /// The box around the first `n` of the positions in `center`, which
    /// holds x, y and z of each in turn.
    pub open spec fn around(center: Seq<u32>, n: nat) -> BoundingBox {
        BoundingBox {
            min_x: lowest(center, 0, n),
            min_y: lowest(center, 1, n),
            min_z: lowest(center, 2, n),
            max_x: highest(center, 0, n),
            max_y: highest(center, 1, n),
            max_z: highest(center, 2, n),
        }
    }

    /// The box around no position: from positive infinity down to negative
    /// infinity on every axis.
    pub fn empty() -> (b: BoundingBox)
        ensures
            b == BoundingBox::around(Seq::empty(), 0),
    {
        BoundingBox {
            min_x: POSITIVE_INFINITY,
            min_y: POSITIVE_INFINITY,
            min_z: POSITIVE_INFINITY,
            max_x: NEGATIVE_INFINITY,
            max_y: NEGATIVE_INFINITY,
            max_z: NEGATIVE_INFINITY,
        }
    }

    /// The box made wider, where needed, to hold the position `x`, `y`, `z`.
    pub fn grow(self, x: u32, y: u32, z: u32) -> (b: BoundingBox)
        ensures
            b.min_x == lower(self.min_x, x),
            b.min_y == lower(self.min_y, y),
            b.min_z == lower(self.min_z, z),
            b.max_x == higher(self.max_x, x),
            b.max_y == higher(self.max_y, y),
            b.max_z == higher(self.max_z, z),
    {
        BoundingBox {
            min_x: lower_of(self.min_x, x),
            min_y: lower_of(self.min_y, y),
            min_z: lower_of(self.min_z, z),
            max_x: higher_of(self.max_x, x),
            max_y: higher_of(self.max_y, y),
            max_z: higher_of(self.max_z, z),
        }
    }

    /// The box that holds what either of two boxes holds.
    pub fn join(self, other: BoundingBox) -> (b: BoundingBox)
        ensures
            b.min_x == lower(self.min_x, other.min_x),
            b.min_y == lower(self.min_y, other.min_y),
            b.min_z == lower(self.min_z, other.min_z),
            b.max_x == higher(self.max_x, other.max_x),
            b.max_y == higher(self.max_y, other.max_y),
            b.max_z == higher(self.max_z, other.max_z),
    {
        BoundingBox {
            min_x: lower_of(self.min_x, other.min_x),
            min_y: lower_of(self.min_y, other.min_y),
            min_z: lower_of(self.min_z, other.min_z),
            max_x: higher_of(self.max_x, other.max_x),
            max_y: higher_of(self.max_y, other.max_y),
            max_z: higher_of(self.max_z, other.max_z),
        }
    }
}

fn nan(bits: u32) -> (b: bool)
    ensures
        b == is_nan(bits),
{
    if bits >= 0x8000_0000 {
        bits - 0x8000_0000 > 0x7f80_0000
    } else {
        bits > 0x7f80_0000
    }
}

fn key(bits: u32) -> (k: i64)
    ensures
        k == order_key(bits),
{
    if bits >= 0x8000_0000 {
        -((bits - 0x8000_0000) as i64) - 1
    } else {
        bits as i64
    }
}

/// The lower of two values, by the order of the numbers they write.
pub fn lower_of(a: u32, b: u32) -> (m: u32)
    ensures
        m == lower(a, b),
{
    if nan(b) {
        a
    } else if nan(a) {
        b
    } else if key(a) <= key(b) {
        a
    } else {
        b
    }
}

/// The higher of two values, by the order of the numbers they write.
pub fn higher_of(a: u32, b: u32) -> (m: u32)
    ensures
        m == higher(a, b),
{
    if nan(b) {
        a
    } else if nan(a) {
        b
    } else if key(a) >= key(b) {
        a
    } else {
        b
    }
}

/// Folds the positions in `center`, x, y and z of each in turn, into the box
/// around them. Values behind the last whole position are not looked at.
pub fn bounding_box(center: &Vec<u32>) -> (b: BoundingBox)
    ensures
        b == BoundingBox::around(center@, center@.len() / 3),
        forall|i: int, axis: int|
            0 <= i < center@.len() / 3 && 0 <= axis < 3 && !is_nan(center@[3 * i + axis])
                ==> order_key(b.min(axis)) <= order_key(#[trigger] center@[3 * i + axis])
                <= order_key(b.max(axis)),
{
    let n: usize = center.len() / 3;
    let mut b = BoundingBox::empty();
    let mut i: usize = 0;
    while i < n
        invariant
            i <= n,
            n == center.len() / 3,
            b == BoundingBox::around(center@, i as nat),
        decreases n - i,
    {
        b = b.grow(center[3 * i], center[3 * i + 1], center[3 * i + 2]);
        i += 1;
    }
    proof {
        assert forall|i: int, axis: int|
            0 <= i < center@.len() / 3 && 0 <= axis < 3 && !is_nan(
                center@[3 * i + axis],
            ) implies order_key(b.min(axis)) <= order_key(#[trigger] center@[3 * i + axis])
            <= order_key(b.max(axis)) by {
            lemma_box_holds(center@, n as nat, i, axis);
        }
    }
    b
}

/// The lowest and the highest value of an axis write numbers, and every
/// value of that axis that writes a number lies between them.
pub proof fn lemma_box_holds(center: Seq<u32>, n: nat, i: int, axis: int)
    requires
        0 <= i < n,
        0 <= axis < 3,
        !is_nan(center[3 * i + axis]),
    ensures
        order_key(lowest(center, axis, n)) <= order_key(center[3 * i + axis]) <= order_key(
            highest(center, axis, n),
        ),
        !is_nan(lowest(center, axis, n)),
        !is_nan(highest(center, axis, n)),
        order_key(lowest(center, axis, n)) <= order_key(highest(center, axis, n)),
    decreases n,
{
    lemma_bounds_are_numbers(center, axis, (n - 1) as nat);
    if i < n - 1 {
        lemma_box_holds(center, (n - 1) as nat, i, axis);
    }
}

/// The bounds of an axis always write numbers.
pub proof fn lemma_bounds_are_numbers(center: Seq<u32>, axis: int, n: nat)
    ensures
        !is_nan(lowest(center, axis, n)),
        !is_nan(highest(center, axis, n)),
    decreases n,
{
    if n > 0 {
        lemma_bounds_are_numbers(center, axis, (n - 1) as nat);
    }
}


/// The bounds of the first positions do not depend on what follows them.
pub proof fn lemma_bounds_of_prefix(a: Seq<u32>, b: Seq<u32>, axis: int, n: nat)
    requires
        0 <= axis < 3,
        3 * n <= a.len(),
    ensures
        lowest(a + b, axis, n) == lowest(a, axis, n),
        highest(a + b, axis, n) == highest(a, axis, n),
    decreases n,
{
    if n > 0 {
        lemma_bounds_of_prefix(a, b, axis, (n - 1) as nat);
    }
}

/// The box around positions can be folded in parts: the bounds of two rows
/// of positions, joined, are the bounds of the one row behind the other. So
/// the fold gives the same bits however the positions are split up.
pub proof fn lemma_bounds_of_parts(a: Seq<u32>, b: Seq<u32>, axis: int, m: nat)
    requires
        0 <= axis < 3,
        a.len() % 3 == 0,
        3 * m <= b.len(),
    ensures
        lowest(a + b, axis, a.len() / 3 + m) == lower(
            lowest(a, axis, a.len() / 3),
            lowest(b, axis, m),
        ),
        highest(a + b, axis, a.len() / 3 + m) == higher(
            highest(a, axis, a.len() / 3),
            highest(b, axis, m),
        ),
    decreases m,
{
    let n = a.len() / 3;
    lemma_bounds_are_numbers(a, axis, n);
    if m == 0 {
        lemma_bounds_of_prefix(a, b, axis, n);
    } else {
        lemma_bounds_of_parts(a, b, axis, (m - 1) as nat);
        lemma_bounds_are_numbers(b, axis, (m - 1) as nat);
        assert((a + b)[3 * (n + m - 1) + axis] == b[3 * (m - 1) + axis]);
    }
}

} // verus!
