use crate::error::PlyError;
use crate::fields::{ColorFields, FieldRef, QuatLayout, SplatFields};
use crate::text::Span;
use vstd::prelude::*;

verus! {

/// A field of a record as the file holds it, before any arithmetic on it.
#[derive(Debug, Clone, Copy, PartialEq, Eq, Structural)]
pub enum RawScalar {
    /// The value of a field of an integer type.
    Int(i64),
    /// The bits of a field of the 32-bit binary floating type.
    Single(u32),
    /// The bits of a field of the 64-bit binary floating type.
    Double(u64),
    /// A column of an ASCII record: where its characters stand in the text
    /// of the data. They write a number.
    Text(Span),
}

/// How the three channels of a colour turn into bytes.
#[derive(Debug, Clone, Copy, PartialEq, Eq, Structural)]
pub enum ChannelRule {
    /// The channels hold bytes, from 0 to 255.
    Bytes,
    /// The channels hold fractions of one, to be scaled by 255.
    Unit,
    /// The values decide: fractions of one where none of the three is
    /// above one, bytes else.
    ByValue,
}

/// The colour of a record as the file holds it.
#[derive(Debug, Clone, Copy, PartialEq, Eq, Structural)]
pub enum RawColor {
    /// The file holds no colour: the splat is white.
    White,
    Rgb { r: RawScalar, g: RawScalar, b: RawScalar, rule: ChannelRule },
    /// The constant terms of the spherical harmonics, one for each channel.
    ShDc { c0: RawScalar, c1: RawScalar, c2: RawScalar },
}

/// One record: the fields of a splat as the file holds them. The rotation
/// stands as x, y, z, w, whatever the order of the file.
#[derive(Debug, Clone, Copy, PartialEq, Eq, Structural)]
pub struct RawSplat {
    pub x: RawScalar,
    pub y: RawScalar,
    pub z: RawScalar,
    pub scale_0: RawScalar,
    pub scale_1: RawScalar,
    pub scale_2: RawScalar,
    pub quat_x: RawScalar,
    pub quat_y: RawScalar,
    pub quat_z: RawScalar,
    pub quat_w: RawScalar,
    pub opacity: RawScalar,
    pub color: RawColor,
}

/// The rule for three colour channels: in an ASCII file the values decide;
/// in a binary file the channels hold bytes where all three are declared
/// with a type of one byte, and fractions of one else.
pub open spec fn channel_rule(ascii: bool, r: FieldRef, g: FieldRef, b: FieldRef) -> ChannelRule {
    if ascii {
        ChannelRule::ByValue
    } else if r.ty.byte_sized() && g.ty.byte_sized() && b.ty.byte_sized() {
        ChannelRule::Bytes
    } else {
        ChannelRule::Unit
    }
}

/// The record that the values read in the order of `fields.read_order()`
/// make up.
pub open spec fn splat_of(fields: SplatFields, ascii: bool, v: Seq<RawScalar>) -> RawSplat {
    RawSplat {
        x: v[0],
        y: v[1],
        z: v[2],
        scale_0: v[3],
        scale_1: v[4],
        scale_2: v[5],
        quat_x: match fields.rotation.layout {
            QuatLayout::Wxyz => v[7],
            QuatLayout::Xyzw => v[6],
        },
        quat_y: match fields.rotation.layout {
            QuatLayout::Wxyz => v[8],
            QuatLayout::Xyzw => v[7],
        },
        quat_z: match fields.rotation.layout {
            QuatLayout::Wxyz => v[9],
            QuatLayout::Xyzw => v[8],
        },
        quat_w: match fields.rotation.layout {
            QuatLayout::Wxyz => v[6],
            QuatLayout::Xyzw => v[9],
        },
        opacity: v[10],
        color: match fields.color {
            ColorFields::Rgb { r, g, b } => RawColor::Rgb {
                r: v[11],
                g: v[12],
                b: v[13],
                rule: channel_rule(ascii, r, g, b),
            },
            ColorFields::ShDc { .. } => RawColor::ShDc { c0: v[11], c1: v[12], c2: v[13] },
            ColorFields::Absent => RawColor::White,
        },
    }
}

/// Makes a record of the values read in the order of `fields.reads()`.
pub fn assemble(fields: &SplatFields, ascii: bool, values: &Vec<RawScalar>) -> (splat: RawSplat)
    requires
        values.len() == fields.read_order().len(),
    ensures
        splat == splat_of(*fields, ascii, values@),
{
    let v = values;
    let (quat_x, quat_y, quat_z, quat_w) = match fields.rotation.layout {
        QuatLayout::Wxyz => (v[7], v[8], v[9], v[6]),
        QuatLayout::Xyzw => (v[6], v[7], v[8], v[9]),
    };
    let color = match fields.color {
        ColorFields::Rgb { r, g, b } => {
            let rule = if ascii {
                ChannelRule::ByValue
            } else if r.ty.is_probably_byte_color() && g.ty.is_probably_byte_color()
                && b.ty.is_probably_byte_color() {
                ChannelRule::Bytes
            } else {
                ChannelRule::Unit
            };
            RawColor::Rgb { r: v[11], g: v[12], b: v[13], rule }
        },
        ColorFields::ShDc { .. } => RawColor::ShDc { c0: v[11], c1: v[12], c2: v[13] },
        ColorFields::Absent => RawColor::White,
    };
    RawSplat {
        x: v[0],
        y: v[1],
        z: v[2],
        scale_0: v[3],
        scale_1: v[4],
        scale_2: v[5],
        quat_x,
        quat_y,
        quat_z,
        quat_w,
        opacity: v[10],
        color,
    }
}

/// The values of the properties in `order`, each read by `cell`; the first
/// that cannot be read gives the error.
pub open spec fn read_all(
    order: Seq<FieldRef>,
    cell: spec_fn(FieldRef) -> Result<RawScalar, PlyError>,
) -> Result<Seq<RawScalar>, PlyError>
    decreases order.len(),
{
    if order.len() == 0 {
        Ok(Seq::empty())
    } else {
        match read_all(order.drop_last(), cell) {
            Err(e) => Err(e),
            Ok(values) => match cell(order.last()) {
                Err(e) => Err(e),
                Ok(v) => Ok(values.push(v)),
            },
        }
    }
}

/// The first `count` records, each given by `record`; the first that cannot
/// be read gives the error.
pub open spec fn collect(count: nat, record: spec_fn(int) -> Result<RawSplat, PlyError>) -> Result<
    Seq<RawSplat>,
    PlyError,
>
    decreases count,
{
    if count == 0 {
        Ok(Seq::empty())
    } else {
        match collect((count - 1) as nat, record) {
            Err(e) => Err(e),
            Ok(splats) => match record(count - 1) {
                Err(e) => Err(e),
                Ok(s) => Ok(splats.push(s)),
            },
        }
    }
}

/// What a row of records comes to: it is read when each of its records is,
/// and then holds those records in order; else its error is that of the
/// first record that cannot be read.
pub proof fn lemma_collect(count: nat, record: spec_fn(int) -> Result<RawSplat, PlyError>)
    ensures
        collect(count, record) is Ok <==> forall|i: int|
            0 <= i < count ==> (#[trigger] record(i)) is Ok,
        collect(count, record) matches Ok(splats) ==> splats.len() == count && forall|i: int|
            0 <= i < count ==> record(i) == Ok::<RawSplat, PlyError>(#[trigger] splats[i]),
        collect(count, record) matches Err(e) ==> exists|i: int|
            0 <= i < count && #[trigger] record(i) == Err::<RawSplat, PlyError>(e) && forall|j: int|
                0 <= j < i ==> (#[trigger] record(j)) is Ok,
    decreases count,
{
    if count > 0 {
        lemma_collect((count - 1) as nat, record);
        match collect((count - 1) as nat, record) {
            Err(e) => {
                let i = choose|i: int|
                    0 <= i < count - 1 && #[trigger] record(i) == Err::<RawSplat, PlyError>(e)
                        && forall|j: int| 0 <= j < i ==> (#[trigger] record(j)) is Ok;
                assert(0 <= i < count && record(i) == Err::<RawSplat, PlyError>(e) && forall|j: int|
                    0 <= j < i ==> (#[trigger] record(j)) is Ok);
            },
            Ok(splats) => {
                match record(count - 1) {
                    Err(e) => {
                        assert(0 <= count - 1 < count && record(count - 1) == Err::<
                            RawSplat,
                            PlyError,
                        >(e) && forall|j: int| 0 <= j < count - 1 ==> (#[trigger] record(j)) is Ok);
                    },
                    Ok(s) => {},
                }
            },
        }
    }
}

/// Once a record cannot be read, no longer row of records can.
pub proof fn lemma_collect_fails(
    count: nat,
    more: nat,
    record: spec_fn(int) -> Result<RawSplat, PlyError>,
)
    requires
        count <= more,
        collect(count, record) is Err,
    ensures
        collect(more, record) == collect(count, record),
    decreases more - count,
{
    if count < more {
        lemma_collect_fails(count, (more - 1) as nat, record);
    }
}

/// Once a field cannot be read, no longer row of fields can.
pub proof fn lemma_read_all_fails(
    order: Seq<FieldRef>,
    k: int,
    cell: spec_fn(FieldRef) -> Result<RawScalar, PlyError>,
)
    requires
        0 <= k <= order.len(),
        read_all(order.take(k), cell) is Err,
    ensures
        read_all(order, cell) == read_all(order.take(k), cell),
    decreases order.len() - k,
{
    if k < order.len() {
        assert(order.take(k + 1).drop_last() =~= order.take(k));
        lemma_read_all_fails(order, k + 1, cell);
    } else {
        assert(order.take(k) =~= order);
    }
}

/// What reading a row of properties comes to: it is read when each of its
/// properties is, and then holds their values in order; else its error is
/// that of the first property that cannot be read.
pub proof fn lemma_read_all(
    order: Seq<FieldRef>,
    cell: spec_fn(FieldRef) -> Result<RawScalar, PlyError>,
)
    ensures
        read_all(order, cell) is Ok <==> forall|k: int|
            0 <= k < order.len() ==> (#[trigger] cell(order[k])) is Ok,
        read_all(order, cell) matches Ok(values) ==> values.len() == order.len() && forall|k: int|
            0 <= k < order.len() ==> cell(order[k]) == Ok::<RawScalar, PlyError>(
                #[trigger] values[k],
            ),
        read_all(order, cell) matches Err(e) ==> exists|k: int|
            0 <= k < order.len() && #[trigger] cell(order[k]) == Err::<RawScalar, PlyError>(e)
                && forall|j: int| 0 <= j < k ==> (#[trigger] cell(order[j])) is Ok,
    decreases order.len(),
{
    if order.len() > 0 {
        let front = order.drop_last();
        lemma_read_all(front, cell);
        assert(forall|k: int| 0 <= k < front.len() ==> front[k] == order[k]);
        match read_all(front, cell) {
            Err(e) => {
                let k = choose|k: int|
                    0 <= k < front.len() && #[trigger] cell(front[k]) == Err::<
                        RawScalar,
                        PlyError,
                    >(e) && forall|j: int| 0 <= j < k ==> (#[trigger] cell(front[j])) is Ok;
                assert(0 <= k < order.len() && cell(order[k]) == Err::<RawScalar, PlyError>(e)
                    && forall|j: int| 0 <= j < k ==> (#[trigger] cell(order[j])) is Ok);
            },
            Ok(values) => {
                let last = order.len() - 1;
                match cell(order.last()) {
                    Err(e) => {
                        assert(0 <= last < order.len() && cell(order[last]) == Err::<
                            RawScalar,
                            PlyError,
                        >(e) && forall|j: int| 0 <= j < last ==> (#[trigger] cell(order[j])) is Ok);
                    },
                    Ok(v) => {
                        assert(forall|k: int|
                            0 <= k < front.len() ==> values.push(v)[k] == values[k]);
                    },
                }
            },
        }
    }
}

/// The rotation of a record does not depend on the order in which the file
/// stores its four parts: a record read as w, x, y, z and one read as
/// x, y, z, w hold the same rotation where the parts agree.
pub proof fn lemma_rotation_layouts_agree(
    wxyz: SplatFields,
    xyzw: SplatFields,
    ascii: bool,
    a: Seq<RawScalar>,
    b: Seq<RawScalar>,
)
    requires
        wxyz.rotation.layout == QuatLayout::Wxyz,
        xyzw.rotation.layout == QuatLayout::Xyzw,
        a[6] == b[9],
        a[7] == b[6],
        a[8] == b[7],
        a[9] == b[8],
    ensures
        splat_of(wxyz, ascii, a).quat_x == splat_of(xyzw, ascii, b).quat_x,
        splat_of(wxyz, ascii, a).quat_y == splat_of(xyzw, ascii, b).quat_y,
        splat_of(wxyz, ascii, a).quat_z == splat_of(xyzw, ascii, b).quat_z,
        splat_of(wxyz, ascii, a).quat_w == splat_of(xyzw, ascii, b).quat_w,
{
}

} // verus!
