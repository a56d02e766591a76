use crate::error::PlyError;
use crate::fields::{entries, EntryView, FieldRef, SplatFields, TableEntry};
use crate::raw::{
    assemble, collect, lemma_collect, lemma_collect_fails, lemma_read_all, lemma_read_all_fails,
    read_all, splat_of, RawScalar, RawSplat,
};
use crate::scalar::PlyScalarType;
use vstd::prelude::*;

verus! {

/// 256 to the power `k`, for the bytes of a field of up to eight bytes.
pub open spec fn radix(k: int) -> nat {
    if k <= 0 {
        1
    } else if k == 1 {
        0x100
    } else if k == 2 {
        0x1_0000
    } else if k == 3 {
        0x100_0000
    } else if k == 4 {
        0x1_0000_0000
    } else if k == 5 {
        0x100_0000_0000
    } else if k == 6 {
        0x1_0000_0000_0000
    } else if k == 7 {
        0x100_0000_0000_0000
    } else {
        0x1_0000_0000_0000_0000
    }
}

/// Byte `k` of the field of `width` bytes at position `at`, counted from the
/// least significant one: from the front where the file is little-endian,
/// from the back where it is big-endian.
pub open spec fn byte_of(bytes: Seq<u8>, at: int, width: int, k: int, little: bool) -> nat {
    if little {
        bytes[at + k] as nat
    } else {
        bytes[at + width - 1 - k] as nat
    }
}

/// The unsigned number that the `n` least significant bytes of a field
/// hold.
pub open spec fn unsigned_low(bytes: Seq<u8>, at: int, width: int, n: int, little: bool) -> nat
    decreases n,
{
    if n <= 0 {
        0
    } else {
        unsigned_low(bytes, at, width, n - 1, little) + byte_of(bytes, at, width, n - 1, little)
            * radix(n - 1)
    }
}

/// The unsigned number that the field of `width` bytes at position `at`
/// holds.
pub open spec fn unsigned_at(bytes: Seq<u8>, at: int, width: int, little: bool) -> nat {
    unsigned_low(bytes, at, width, width, little)
}

/// The number that `v` stands for in two's complement of `width` bytes.
pub open spec fn signed_of(v: nat, width: int) -> int {
    if 2 * v >= radix(width) {
        v - radix(width)
    } else {
        v as int
    }
}

/// What the field of type `ty` at position `at` holds: the number for an
/// integer type, the bits for a floating type.
pub open spec fn scalar_at(bytes: Seq<u8>, at: int, ty: PlyScalarType, little: bool) -> RawScalar {
    let v = unsigned_at(bytes, at, ty.width() as int, little);
    match ty {
        PlyScalarType::Char | PlyScalarType::Short | PlyScalarType::Int => RawScalar::Int(
            signed_of(v, ty.width() as int) as i64,
        ),
        PlyScalarType::UChar | PlyScalarType::UShort | PlyScalarType::UInt => RawScalar::Int(
            v as i64,
        ),
        PlyScalarType::Float => RawScalar::Single(v as u32),
        PlyScalarType::Double => RawScalar::Double(v as u64),
    }
}

/// What reading the field of type `ty` at position `at` gives: its value
/// where all its bytes are there.
pub open spec fn cell_at(bytes: Seq<u8>, at: int, ty: PlyScalarType, little: bool) -> Result<
    RawScalar,
    PlyError,
> {
    if 0 <= at && at + ty.width() <= bytes.len() {
        Ok(scalar_at(bytes, at, ty, little))
    } else {
        Err(PlyError::Truncated)
    }
}

fn byte_in(bytes: &[u8], at: usize, width: usize, k: usize, little: bool) -> (b: u64)
    requires
        k < width,
        at + width <= bytes.len(),
    ensures
        b == byte_of(bytes@, at as int, width as int, k as int, little),
        b < 0x100,
{
    if little {
        bytes[at + k] as u64
    } else {
        bytes[at + width - 1 - k] as u64
    }
}

fn unsigned_in(bytes: &[u8], at: usize, width: usize, little: bool) -> (v: u64)
    requires
        1 <= width <= 8,
        at + width <= bytes.len(),
    ensures
        v == unsigned_at(bytes@, at as int, width as int, little),
        v < radix(width as int),
{
    let mut v: u64 = 0;
    let mut k: usize = 0;
    let mut unit: u64 = 1;
    while k < width
        invariant
            k <= width <= 8,
            at + width <= bytes.len(),
            k < 8 ==> unit == radix(k as int),
            v == unsigned_low(bytes@, at as int, width as int, k as int, little),
            v < radix(k as int),
        decreases width - k,
    {
        let b = byte_in(bytes, at, width, k, little);
        assert(v + b * unit < 256 * unit) by (nonlinear_arith)
            requires
                v < unit,
                b < 0x100,
        ;
        assert(256 * radix(k as int) == radix(k + 1));
        v = v + b * unit;
        k += 1;
        if k < 8 {
            unit = unit * 256;
        }
    }
    v
}

/// Reads one field of a binary record: `ty.size_bytes()` bytes at `offset`,
/// in the byte order of the file.
pub fn read_scalar(bytes: &[u8], offset: usize, ty: PlyScalarType, little: bool) -> (r: Result<
    RawScalar,
    PlyError,
>)
    ensures
        r == cell_at(bytes@, offset as int, ty, little),
{
    let need = ty.size_bytes();
    if offset > bytes.len() || need > bytes.len() - offset {
        return Err(PlyError::Truncated);
    }
    let v = unsigned_in(bytes, offset, need, little);
    let value = match ty {
        PlyScalarType::Char => RawScalar::Int(
            if v >= 0x80 {
                v as i64 - 0x100
            } else {
                v as i64
            },
        ),
        PlyScalarType::Short => RawScalar::Int(
            if v >= 0x8000 {
                v as i64 - 0x1_0000
            } else {
                v as i64
            },
        ),
        PlyScalarType::Int => RawScalar::Int(
            if v >= 0x8000_0000 {
                v as i64 - 0x1_0000_0000
            } else {
                v as i64
            },
        ),
        PlyScalarType::UChar | PlyScalarType::UShort | PlyScalarType::UInt => RawScalar::Int(
            v as i64,
        ),
        PlyScalarType::Float => RawScalar::Single(v as u32),
        PlyScalarType::Double => RawScalar::Double(v),
    };
    Ok(value)
}


/// The position of property `i` inside a binary record: the widths of the
/// properties before it, added up.
pub open spec fn offset_at(table: Seq<EntryView>, i: int) -> nat
    decreases i,
{
    if i <= 0 {
        0
    } else {
        offset_at(table, i - 1) + table[i - 1].ty.width()
    }
}

/// The number of bytes that one binary record takes.
pub open spec fn stride_of(table: Seq<EntryView>) -> nat {
    offset_at(table, table.len() as int)
}

/// No property takes more than eight bytes.
pub proof fn lemma_offset_bound(table: Seq<EntryView>, i: int)
    requires
        0 <= i,
    ensures
        offset_at(table, i) <= 8 * i,
    decreases i,
{
    if i > 0 {
        lemma_offset_bound(table, i - 1);
    }
}

/// Where the properties of a binary record stand, and how long a record is.
#[derive(Debug, Clone)]
pub struct RecordLayout {
    pub offsets: Vec<u128>,
    pub stride: u128,
}

impl RecordLayout {
    /// The layout is that of the records of `table`.
    pub open spec fn describes(self, table: Seq<EntryView>) -> bool {
        &&& self.offsets.len() == table.len()
        &&& forall|i: int|
            0 <= i < table.len() ==> #[trigger] self.offsets[i] == offset_at(table, i)
        &&& self.stride == stride_of(table)
    }
}

/// Lays out the records of an element from the types of its properties.
pub fn record_layout(table: &Vec<TableEntry>) -> (layout: RecordLayout)
    ensures
        layout.describes(entries(table@)),
{
    let ghost all = entries(table@);
    let mut offsets: Vec<u128> = Vec::new();
    let mut stride: u128 = 0;
    let mut i: usize = 0;
    while i < table.len()
        invariant
            i <= table.len(),
            all == entries(table@),
            offsets.len() == i,
            forall|k: int| 0 <= k < i ==> #[trigger] offsets[k] == offset_at(all, k),
            stride == offset_at(all, i as int),
            stride <= 8 * i,
        decreases table.len() - i,
    {
        offsets.push(stride);
        assert(all[i as int].ty == table@[i as int].ty);
        stride = stride + table[i].ty.size_bytes() as u128;
        i += 1;
    }
    RecordLayout { offsets, stride }
}

/// How a field of the binary record that starts at `start` is read.
pub open spec fn binary_cell(bytes: Seq<u8>, start: int, table: Seq<EntryView>, little: bool)
    -> spec_fn(FieldRef) -> Result<RawScalar, PlyError> {
    |f: FieldRef| cell_at(bytes, start + offset_at(table, f.index as int), f.ty, little)
}

/// Record `i` of a binary file whose records start at `data_offset`.
pub open spec fn binary_record(
    bytes: Seq<u8>,
    data_offset: int,
    table: Seq<EntryView>,
    fields: SplatFields,
    little: bool,
    i: int,
) -> Result<RawSplat, PlyError> {
    let start = data_offset + i * stride_of(table);
    match read_all(fields.read_order(), binary_cell(bytes, start, table, little)) {
        Err(e) => Err(e),
        Ok(values) => Ok(splat_of(fields, false, values)),
    }
}

/// The first `count` records of a binary file, or the error of the first
/// that cannot be read: only the fields of a splat are read, and a record
/// that holds them all is complete.
pub open spec fn binary_splats(
    bytes: Seq<u8>,
    data_offset: int,
    table: Seq<EntryView>,
    fields: SplatFields,
    little: bool,
    count: nat,
) -> Result<Seq<RawSplat>, PlyError> {
    collect(count, |i: int| binary_record(bytes, data_offset, table, fields, little, i))
}

/// All the bytes of property `f` of record `i` are there.
pub open spec fn readable(
    bytes: Seq<u8>,
    data_offset: int,
    table: Seq<EntryView>,
    i: int,
    f: FieldRef,
) -> bool {
    data_offset + i * stride_of(table) + offset_at(table, f.index as int) + f.ty.width()
        <= bytes.len()
}

/// The values that the fields of record `i` hold, in the order in which they
/// are read.
pub open spec fn record_values(
    bytes: Seq<u8>,
    data_offset: int,
    table: Seq<EntryView>,
    fields: SplatFields,
    little: bool,
    i: int,
) -> Seq<RawScalar> {
    fields.read_order().map_values(
        |f: FieldRef|
            scalar_at(
                bytes,
                data_offset + i * stride_of(table) + offset_at(table, f.index as int),
                f.ty,
                little,
            ),
    )
}

/// What reading a binary file comes to. The records are read exactly when
/// all the bytes of every field of a splat are there, in each of the
/// records; each record then holds the values of its fields. The one error
/// is that the data was cut short.
pub proof fn lemma_binary_splats(
    bytes: Seq<u8>,
    data_offset: int,
    table: Seq<EntryView>,
    fields: SplatFields,
    little: bool,
    count: nat,
)
    requires
        0 <= data_offset,
    ensures
        binary_splats(bytes, data_offset, table, fields, little, count) is Ok <==> forall|
            i: int,
            k: int,
        |
            0 <= i < count && 0 <= k < fields.read_order().len() ==> #[trigger] readable(
                bytes,
                data_offset,
                table,
                i,
                fields.read_order()[k],
            ),
        binary_splats(bytes, data_offset, table, fields, little, count) matches Err(e) ==> e
            == PlyError::Truncated,
        binary_splats(bytes, data_offset, table, fields, little, count) matches Ok(splats)
            ==> splats.len() == count && forall|i: int|
            0 <= i < count ==> #[trigger] splats[i] == splat_of(
                fields,
                false,
                record_values(bytes, data_offset, table, fields, little, i),
            ),
{
    let order = fields.read_order();
    let record = |i: int| binary_record(bytes, data_offset, table, fields, little, i);
    lemma_collect(count, record);
    assert forall|i: int| 0 <= i < count implies ((#[trigger] record(i)) is Ok <==> forall|k: int|
        0 <= k < order.len() ==> #[trigger] readable(bytes, data_offset, table, i, order[k])) && (
    record(i) matches Err(e) ==> e == PlyError::Truncated) && (record(i) matches Ok(s) ==> s
        == splat_of(fields, false, record_values(bytes, data_offset, table, fields, little, i))) by {
        let start = data_offset + i * stride_of(table);
        let cell = binary_cell(bytes, start, table, little);
        lemma_read_all(order, cell);
        assert(0 <= start) by (nonlinear_arith)
            requires
                0 <= data_offset,
                0 <= i,
                start == data_offset + i * stride_of(table),
        ;
        assert forall|k: int| 0 <= k < order.len() implies ((#[trigger] cell(order[k])) is Ok
            <==> readable(bytes, data_offset, table, i, order[k])) by {}
        if read_all(order, cell) is Ok {
            let values = read_all(order, cell)->Ok_0;
            assert(values =~= record_values(bytes, data_offset, table, fields, little, i));
            assert forall|k: int| 0 <= k < order.len() implies #[trigger] readable(
                bytes,
                data_offset,
                table,
                i,
                order[k],
            ) by {
                assert(cell(order[k]) is Ok);
            }
        } else {
            let e = read_all(order, cell)->Err_0;
            let k = choose|k: int|
                0 <= k < order.len() && #[trigger] cell(order[k]) == Err::<RawScalar, PlyError>(e)
                    && forall|j: int| 0 <= j < k ==> (#[trigger] cell(order[j])) is Ok;
            assert(!readable(bytes, data_offset, table, i, order[k]));
        }
    }
    if binary_splats(bytes, data_offset, table, fields, little, count) is Ok {
        assert forall|i: int, k: int|
            0 <= i < count && 0 <= k < order.len() implies #[trigger] readable(
            bytes,
            data_offset,
            table,
            i,
            order[k],
        ) by {
            assert(record(i) is Ok);
        }
    } else {
        let e = binary_splats(bytes, data_offset, table, fields, little, count)->Err_0;
        let i = choose|i: int|
            0 <= i < count && #[trigger] record(i) == Err::<RawSplat, PlyError>(e) && forall|
                j: int,
            | 0 <= j < i ==> (#[trigger] record(j)) is Ok;
        assert(record(i) is Err);
    }
}

fn read_binary_record(
    bytes: &[u8],
    start: u128,
    layout: &RecordLayout,
    order: &Vec<FieldRef>,
    little: bool,
    Ghost(table): Ghost<Seq<EntryView>>,
) -> (r: Result<Vec<RawScalar>, PlyError>)
    requires
        layout.describes(table),
        table.len() <= usize::MAX,
        start <= 0x1_0000_0000_0000_0000_0000,
        forall|k: int| 0 <= k < order.len() ==> (#[trigger] order[k]).fits(table),
    ensures
        match r {
            Ok(values) => read_all(order@, binary_cell(bytes@, start as int, table, little))
                == Ok::<Seq<RawScalar>, PlyError>(values@),
            Err(e) => read_all(order@, binary_cell(bytes@, start as int, table, little)) == Err::<
                Seq<RawScalar>,
                PlyError,
            >(e),
        },
        r is Ok ==> order.len() > 0 ==> start < bytes.len(),
{
    let ghost cell = binary_cell(bytes@, start as int, table, little);
    let mut values: Vec<RawScalar> = Vec::new();
    let mut k: usize = 0;
    while k < order.len()
        invariant
            k <= order.len(),
            layout.describes(table),
            table.len() <= usize::MAX,
            start <= 0x1_0000_0000_0000_0000_0000,
            forall|j: int| 0 <= j < order.len() ==> (#[trigger] order[j]).fits(table),
            cell == binary_cell(bytes@, start as int, table, little),
            read_all(order@.take(k as int), cell) == Ok::<Seq<RawScalar>, PlyError>(values@),
            k > 0 ==> start < bytes.len(),
        decreases order.len() - k,
    {
        let f = order[k];
        proof {
            assert(order@.take(k + 1).drop_last() =~= order@.take(k as int));
            assert(order@.take(k + 1).last() == f);
            assert(f.fits(table));
            lemma_offset_bound(table, f.index as int);
        }
        let at: u128 = start + layout.offsets[f.index];
        let len: usize = bytes.len();
        if at > len as u128 {
            assert(cell(f) == Err::<RawScalar, PlyError>(PlyError::Truncated));
            proof {
                assert(order@.take(order.len() as int) =~= order@);
                lemma_read_all_fails(order@, k + 1, cell);
            }
            return Err(PlyError::Truncated);
        }
        match read_scalar(bytes, at as usize, f.ty, little) {
            Err(e) => {
                proof {
                    lemma_read_all_fails(order@, k + 1, cell);
                }
                return Err(e);
            },
            Ok(v) => {
                values.push(v);
            },
        }
        k += 1;
    }
    assert(order@.take(k as int) =~= order@);
    Ok(values)
}

/// Reads the `count` records of a binary file one after the other, from
/// `data_offset` on.
pub fn decode_binary(
    bytes: &[u8],
    data_offset: usize,
    table: &Vec<TableEntry>,
    fields: &SplatFields,
    little: bool,
    count: usize,
) -> (r: Result<Vec<RawSplat>, PlyError>)
    requires
        fields.fits(entries(table@)),
    ensures
        match r {
            Ok(splats) => binary_splats(
                bytes@,
                data_offset as int,
                entries(table@),
                *fields,
                little,
                count as nat,
            ) == Ok::<Seq<RawSplat>, PlyError>(splats@),
            Err(e) => binary_splats(
                bytes@,
                data_offset as int,
                entries(table@),
                *fields,
                little,
                count as nat,
            ) == Err::<Seq<RawSplat>, PlyError>(e),
        },
{
    let ghost all = entries(table@);
    let ghost record = |i: int| binary_record(bytes@, data_offset as int, all, *fields, little, i);
    let layout = record_layout(table);
    let order = fields.reads();
    let mut splats: Vec<RawSplat> = Vec::new();
    let mut start: u128 = data_offset as u128;
    let mut i: usize = 0;
    proof {
        lemma_offset_bound(all, all.len() as int);
    }
    while i < count
        invariant
            i <= count,
            all == entries(table@),
            layout.describes(all),
            order@ == fields.read_order(),
            fields.fits(all),
            layout.stride <= 8 * usize::MAX,
            start == data_offset + i * layout.stride,
            start <= usize::MAX + layout.stride,
            record == (|i: int|
                binary_record(bytes@, data_offset as int, all, *fields, little, i)),
            collect(i as nat, record) == Ok::<Seq<RawSplat>, PlyError>(splats@),
        decreases count - i,
    {
        match read_binary_record(bytes, start, &layout, &order, little, Ghost(all)) {
            Err(e) => {
                proof {
                    assert(record(i as int) == Err::<RawSplat, PlyError>(e));
                    lemma_collect_fails((i + 1) as nat, count as nat, record);
                }
                return Err(e);
            },
            Ok(values) => {
                proof {
                    lemma_read_all(
                        order@,
                        binary_cell(bytes@, start as int, all, little),
                    );
                }
                splats.push(assemble(fields, false, &values));
            },
        }
        assert(start + layout.stride == data_offset + (i + 1) * layout.stride) by (nonlinear_arith)
            requires
                start == data_offset + i * layout.stride,
        ;
        start = start + layout.stride;
        i += 1;
    }
    Ok(splats)
}

} // verus!
