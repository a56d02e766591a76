use crate::bbox::{is_nan, lemma_box_holds, order_key, BoundingBox};
use crate::pixel::{packed, rgba_to_u32};
use crate::scalar::PlyFormat;
use vstd::prelude::*;

verus! {

/// One splat after its numbers were worked out: the position, the upper
/// triangle of the symmetric shape matrix, both as the bits of 32-bit binary
/// floating values, and the four channels of the colour.
#[derive(Debug, Clone, Copy, PartialEq, Eq, Structural)]
pub struct SplatValues {
    pub x: u32,
    pub y: u32,
    pub z: u32,
    pub m11: u32,
    pub m12: u32,
    pub m13: u32,
    pub m22: u32,
    pub m23: u32,
    pub m33: u32,
    pub r: u32,
    pub g: u32,
    pub b: u32,
    pub a: u32,
}

/// The buffers that a renderer takes: for each of `N` splats three values of
/// position, six of the shape matrix and one pixel, with the box around all
/// the positions. The values of position, shape and box are the bits of
/// 32-bit binary floating values.
#[derive(Debug)]
pub struct SplatPlyBuffersCore {
    count: u32,
    format: PlyFormat,
    center: Vec<u32>,
    covariance: Vec<u32>,
    rgba: Vec<u32>,
    bounds: BoundingBox,
}

/// The buffers as sequences.
pub struct BuffersView {
    pub count: u32,
    pub format: PlyFormat,
    pub center: Seq<u32>,
    pub covariance: Seq<u32>,
    pub rgba: Seq<u32>,
    pub bounds: BoundingBox,
}

impl BuffersView {
    /// The number of splats in the buffers.
    pub open spec fn splats(self) -> nat {
        self.rgba.len()
    }

    /// The lengths of the buffers are three, six and one times the number of
    /// splats, the count is that number as far as 32 bits hold it, and the
    /// box is the box around the positions.
    pub open spec fn well_formed(self) -> bool {
        &&& self.center.len() == 3 * self.splats()
        &&& self.covariance.len() == 6 * self.splats()
        &&& self.count == self.splats() % 0x1_0000_0000
        &&& self.bounds == BoundingBox::around(self.center, self.splats())
    }

    /// Buffers without a splat.
    pub open spec fn start(format: PlyFormat) -> BuffersView {
        BuffersView {
            count: 0,
            format,
            center: Seq::empty(),
            covariance: Seq::empty(),
            rgba: Seq::empty(),
            bounds: BoundingBox::around(Seq::empty(), 0),
        }
    }

    /// The buffers with one more splat at their end.
    pub open spec fn with(self, s: SplatValues) -> BuffersView {
        let center = self.center.push(s.x).push(s.y).push(s.z);
        BuffersView {
            count: ((self.splats() + 1) % 0x1_0000_0000) as u32,
            format: self.format,
            center,
            covariance: self.covariance.push(s.m11).push(s.m12).push(s.m13).push(s.m22).push(
                s.m23,
            ).push(s.m33),
            rgba: self.rgba.push(packed(s.r, s.g, s.b, s.a)),
            bounds: BoundingBox::around(center, self.splats() + 1),
        }
    }
}

/// Buffers stay well formed when a splat is added, and the box grows by the
/// position of that splat alone.
pub proof fn lemma_with_keeps_well_formed(v: BuffersView, s: SplatValues)
    requires
        v.well_formed(),
    ensures
        v.with(s).well_formed(),
        v.with(s).splats() == v.splats() + 1,
        v.with(s).bounds.min_x == crate::bbox::lower(v.bounds.min_x, s.x),
        v.with(s).bounds.min_y == crate::bbox::lower(v.bounds.min_y, s.y),
        v.with(s).bounds.min_z == crate::bbox::lower(v.bounds.min_z, s.z),
        v.with(s).bounds.max_x == crate::bbox::higher(v.bounds.max_x, s.x),
        v.with(s).bounds.max_y == crate::bbox::higher(v.bounds.max_y, s.y),
        v.with(s).bounds.max_z == crate::bbox::higher(v.bounds.max_z, s.z),
{
    let n = v.splats();
    let center = v.center.push(s.x).push(s.y).push(s.z);
    assert(center =~= v.center + seq![s.x, s.y, s.z]);
    crate::bbox::lemma_bounds_of_prefix(v.center, seq![s.x, s.y, s.z], 0, n);
    crate::bbox::lemma_bounds_of_prefix(v.center, seq![s.x, s.y, s.z], 1, n);
    crate::bbox::lemma_bounds_of_prefix(v.center, seq![s.x, s.y, s.z], 2, n);
}

/// In well-formed buffers every position that writes a number lies in the
/// box, axis by axis, and the lower bound of an axis is not above the upper
/// one as soon as one position on it writes a number.
pub proof fn lemma_positions_in_box(v: BuffersView, i: int, axis: int)
    requires
        v.well_formed(),
        0 <= i < v.splats(),
        0 <= axis < 3,
        !is_nan(v.center[3 * i + axis]),
    ensures
        order_key(v.bounds.min(axis)) <= order_key(v.center[3 * i + axis]) <= order_key(
            v.bounds.max(axis),
        ),
        order_key(v.bounds.min(axis)) <= order_key(v.bounds.max(axis)),
{
    lemma_box_holds(v.center, v.splats(), i, axis);
}

impl View for SplatPlyBuffersCore {
    type V = BuffersView;

    closed spec fn view(&self) -> BuffersView {
        BuffersView {
            count: self.count,
            format: self.format,
            center: self.center@,
            covariance: self.covariance@,
            rgba: self.rgba@,
            bounds: self.bounds,
        }
    }
}

impl SplatPlyBuffersCore {
    #[verifier::type_invariant]
    spec fn inv(self) -> bool {
        self@.well_formed()
    }

    /// Buffers without a splat, for a file of the given encoding.
    pub fn new(format: PlyFormat) -> (out: Self)
        ensures
            out@ == BuffersView::start(format),
            out@.well_formed(),
    {
        SplatPlyBuffersCore {
            count: 0,
            format,
            center: Vec::new(),
            covariance: Vec::new(),
            rgba: Vec::new(),
            bounds: BoundingBox::empty(),
        }
    }

    /// Adds one splat behind the others: its position, its shape, and its
    /// colour packed into a pixel. The box grows to hold the position.
    pub fn push(self, s: SplatValues) -> (out: Self)
        ensures
            out@ == self@.with(s),
            out@.well_formed(),
    {
        proof {
            use_type_invariant(&self);
            lemma_with_keeps_well_formed(self@, s);
        }
        let SplatPlyBuffersCore { count, format, center, covariance, rgba, bounds } = self;
        let mut center = center;
        let mut covariance = covariance;
        let mut rgba = rgba;
        center.push(s.x);
        center.push(s.y);
        center.push(s.z);
        covariance.push(s.m11);
        covariance.push(s.m12);
        covariance.push(s.m13);
        covariance.push(s.m22);
        covariance.push(s.m23);
        covariance.push(s.m33);
        rgba.push(rgba_to_u32(s.r, s.g, s.b, s.a));
        let count = if count == u32::MAX {
            0
        } else {
            count + 1
        };
        let bounds = bounds.grow(s.x, s.y, s.z);
        SplatPlyBuffersCore { count, format, center, covariance, rgba, bounds }
    }

    /// The number of splats, as far as 32 bits hold it.
    pub fn count(&self) -> (n: u32)
        ensures
            n == self@.count,
            self@.well_formed(),
    {
        proof {
            use_type_invariant(self);
        }
        self.count
    }

    /// The encoding of the file that the splats were read from.
    pub fn format(&self) -> (f: PlyFormat)
        ensures
            f == self@.format,
    {
        self.format
    }

    /// The positions: x, y and z of each splat in turn.
    pub fn center(&self) -> (values: &Vec<u32>)
        ensures
            values@ == self@.center,
            values@.len() == 3 * self@.splats(),
    {
        proof {
            use_type_invariant(self);
        }
        &self.center
    }

    /// The shapes: six values of each splat in turn, the upper triangle of
    /// its symmetric matrix row by row.
    pub fn covariance(&self) -> (values: &Vec<u32>)
        ensures
            values@ == self@.covariance,
            values@.len() == 6 * self@.splats(),
    {
        proof {
            use_type_invariant(self);
        }
        &self.covariance
    }

    /// The pixels, one of each splat.
    pub fn rgba(&self) -> (values: &Vec<u32>)
        ensures
            values@ == self@.rgba,
    {
        &self.rgba
    }

    /// The lower corner of the box around the positions.
    pub fn bbox_min(&self) -> (corner: [u32; 3])
        ensures
            corner@ == seq![self@.bounds.min_x, self@.bounds.min_y, self@.bounds.min_z],
            self@.bounds == BoundingBox::around(self@.center, self@.splats()),
    {
        proof {
            use_type_invariant(self);
        }
        let corner = [self.bounds.min_x, self.bounds.min_y, self.bounds.min_z];
        assert(corner@ =~= seq![self@.bounds.min_x, self@.bounds.min_y, self@.bounds.min_z]);
        corner
    }

    /// The upper corner of the box around the positions.
    pub fn bbox_max(&self) -> (corner: [u32; 3])
        ensures
            corner@ == seq![self@.bounds.max_x, self@.bounds.max_y, self@.bounds.max_z],
            self@.bounds == BoundingBox::around(self@.center, self@.splats()),
    {
        proof {
            use_type_invariant(self);
        }
        let corner = [self.bounds.max_x, self.bounds.max_y, self.bounds.max_z];
        assert(corner@ =~= seq![self@.bounds.max_x, self@.bounds.max_y, self@.bounds.max_z]);
        corner
    }
}

} // verus!
