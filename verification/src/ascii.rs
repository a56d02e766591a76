use crate::error::PlyError;
use crate::fields::{FieldRef, SplatFields};
use crate::number::{check_number, is_number};
use crate::raw::{
    assemble, collect, lemma_collect, lemma_collect_fails, lemma_read_all, lemma_read_all_fails,
    read_all, splat_of, RawScalar, RawSplat,
};
use crate::scalar::Newline;
use crate::text::{content_lines, split_lines, split_words, words, Span};
use vstd::prelude::*;

verus! {

/// How a field of an ASCII record is read from the columns of its line: the
/// column at the place of the property must be there and must write a
/// number.
pub open spec fn ascii_cell(text: Seq<char>, columns: Seq<Span>) -> spec_fn(FieldRef) -> Result<
    RawScalar,
    PlyError,
> {
    |f: FieldRef|
        if f.index >= columns.len() {
            Err(PlyError::Truncated)
        } else if !is_number(columns[f.index as int].of(text)) {
            Err(PlyError::NumberFormat)
        } else {
            Ok(RawScalar::Text(columns[f.index as int]))
        }
}

/// Record `i` of an ASCII file: the fields of a splat, read from the words
/// of line `i`.
pub open spec fn ascii_record(text: Seq<char>, lines: Seq<Span>, fields: SplatFields, i: int)
    -> Result<RawSplat, PlyError> {
    let columns = words(text, lines[i].start as int, lines[i].end as int);
    match read_all(fields.read_order(), ascii_cell(text, columns)) {
        Err(e) => Err(e),
        Ok(values) => Ok(splat_of(fields, true, values)),
    }
}

/// The first `count` records of the text of an ASCII file, one for each
/// line that holds more than white space. A text with fewer such lines is
/// cut short, whatever its lines hold.
pub open spec fn ascii_splats(text: Seq<char>, newline: Newline, fields: SplatFields, count: nat)
    -> Result<Seq<RawSplat>, PlyError> {
    let lines = content_lines(text, newline, 0);
    if lines.len() < count {
        Err(PlyError::Truncated)
    } else {
        collect(count, |i: int| ascii_record(text, lines, fields, i))
    }
}

/// The columns of line `i`.
pub open spec fn columns_of(text: Seq<char>, lines: Seq<Span>, i: int) -> Seq<Span> {
    words(text, lines[i].start as int, lines[i].end as int)
}

/// Line `i` has a column for property `f`, and the column writes a number.
pub open spec fn column_reads(text: Seq<char>, lines: Seq<Span>, i: int, f: FieldRef) -> bool {
    f.index < columns_of(text, lines, i).len() && is_number(
        columns_of(text, lines, i)[f.index as int].of(text),
    )
}

/// The columns that hold the fields of record `i`, in the order in which
/// they are read.
pub open spec fn record_columns(text: Seq<char>, lines: Seq<Span>, fields: SplatFields, i: int)
    -> Seq<RawScalar> {
    fields.read_order().map_values(
        |f: FieldRef| RawScalar::Text(columns_of(text, lines, i)[f.index as int]),
    )
}

/// What reading the text of an ASCII file comes to. The records are read
/// exactly when the text has a line for each of them and each of these
/// lines has, for every field of a splat, a column that writes a number;
/// each record then holds the columns of its fields. The errors are that
/// lines or columns are missing, and that a column writes no number.
pub proof fn lemma_ascii_splats(text: Seq<char>, newline: Newline, fields: SplatFields, count: nat)
    ensures
        ascii_splats(text, newline, fields, count) is Ok <==> content_lines(text, newline, 0).len()
            >= count && forall|i: int, k: int|
            0 <= i < count && 0 <= k < fields.read_order().len() ==> #[trigger] column_reads(
                text,
                content_lines(text, newline, 0),
                i,
                fields.read_order()[k],
            ),
        ascii_splats(text, newline, fields, count) matches Err(e) ==> e == PlyError::Truncated || e
            == PlyError::NumberFormat,
        ascii_splats(text, newline, fields, count) matches Ok(splats) ==> splats.len() == count
            && forall|i: int|
            0 <= i < count ==> #[trigger] splats[i] == splat_of(
                fields,
                true,
                record_columns(text, content_lines(text, newline, 0), fields, i),
            ),
{
    let lines = content_lines(text, newline, 0);
    let order = fields.read_order();
    let record = |i: int| ascii_record(text, lines, fields, i);
    if lines.len() >= count {
        lemma_collect(count, record);
        assert forall|i: int| 0 <= i < count implies ((#[trigger] record(i)) is Ok <==> forall|
            k: int,
        | 0 <= k < order.len() ==> #[trigger] column_reads(text, lines, i, order[k])) && (record(
            i,
        ) matches Err(e) ==> e == PlyError::Truncated || e == PlyError::NumberFormat) && (record(
            i,
        ) matches Ok(s) ==> s == splat_of(fields, true, record_columns(text, lines, fields, i))) by {
            let cell = ascii_cell(text, columns_of(text, lines, i));
            lemma_read_all(order, cell);
            assert forall|k: int| 0 <= k < order.len() implies ((#[trigger] cell(order[k])) is Ok
                <==> column_reads(text, lines, i, order[k])) by {}
            if read_all(order, cell) is Ok {
                let values = read_all(order, cell)->Ok_0;
                assert(values =~= record_columns(text, lines, fields, i));
                assert forall|k: int| 0 <= k < order.len() implies #[trigger] column_reads(
                    text,
                    lines,
                    i,
                    order[k],
                ) by {
                    assert(cell(order[k]) is Ok);
                }
            } else {
                let e = read_all(order, cell)->Err_0;
                let k = choose|k: int|
                    0 <= k < order.len() && #[trigger] cell(order[k]) == Err::<
                        RawScalar,
                        PlyError,
                    >(e) && forall|j: int| 0 <= j < k ==> (#[trigger] cell(order[j])) is Ok;
                assert(!column_reads(text, lines, i, order[k]));
            }
        }
        if ascii_splats(text, newline, fields, count) is Ok {
            assert forall|i: int, k: int|
                0 <= i < count && 0 <= k < order.len() implies #[trigger] column_reads(
                text,
                lines,
                i,
                order[k],
            ) by {
                assert(record(i) is Ok);
            }
        } else {
            let e = ascii_splats(text, newline, fields, count)->Err_0;
            let i = choose|i: int|
                0 <= i < count && #[trigger] record(i) == Err::<RawSplat, PlyError>(e) && forall|
                    j: int,
                | 0 <= j < i ==> (#[trigger] record(j)) is Ok;
            assert(record(i) is Err);
        }
    }
}

fn read_ascii_record(text: &Vec<char>, columns: &Vec<Span>, order: &Vec<FieldRef>) -> (r: Result<
    Vec<RawScalar>,
    PlyError,
>)
    requires
        forall|k: int| 0 <= k < columns.len() ==> (#[trigger] columns[k]).within(text@.len()),
    ensures
        match r {
            Ok(values) => read_all(order@, ascii_cell(text@, columns@)) == Ok::<
                Seq<RawScalar>,
                PlyError,
            >(values@),
            Err(e) => read_all(order@, ascii_cell(text@, columns@)) == Err::<
                Seq<RawScalar>,
                PlyError,
            >(e),
        },
{
    let ghost cell = ascii_cell(text@, columns@);
    let mut values: Vec<RawScalar> = Vec::new();
    let mut k: usize = 0;
    while k < order.len()
        invariant
            k <= order.len(),
            forall|j: int| 0 <= j < columns.len() ==> (#[trigger] columns[j]).within(text@.len()),
            cell == ascii_cell(text@, columns@),
            read_all(order@.take(k as int), cell) == Ok::<Seq<RawScalar>, PlyError>(values@),
        decreases order.len() - k,
    {
        let f = order[k];
        proof {
            assert(order@.take(k + 1).drop_last() =~= order@.take(k as int));
            assert(order@.take(k + 1).last() == f);
        }
        if f.index >= columns.len() {
            proof {
                lemma_read_all_fails(order@, k + 1, cell);
            }
            return Err(PlyError::Truncated);
        }
        let column = columns[f.index];
        if !check_number(text, column) {
            proof {
                lemma_read_all_fails(order@, k + 1, cell);
            }
            return Err(PlyError::NumberFormat);
        }
        values.push(RawScalar::Text(column));
        k += 1;
    }
    assert(order@.take(k as int) =~= order@);
    Ok(values)
}

/// Reads the `count` records of the text of an ASCII file, one from each
/// line that holds more than white space.
pub fn decode_ascii(text: &Vec<char>, newline: Newline, fields: &SplatFields, count: usize) -> (r:
    Result<Vec<RawSplat>, PlyError>)
    ensures
        match r {
            Ok(splats) => ascii_splats(text@, newline, *fields, count as nat) == Ok::<
                Seq<RawSplat>,
                PlyError,
            >(splats@),
            Err(e) => ascii_splats(text@, newline, *fields, count as nat) == Err::<
                Seq<RawSplat>,
                PlyError,
            >(e),
        },
{
    let lines = split_lines(text, newline);
    if lines.len() < count {
        return Err(PlyError::Truncated);
    }
    let ghost record = |i: int| ascii_record(text@, lines@, *fields, i);
    let order = fields.reads();
    let mut splats: Vec<RawSplat> = Vec::new();
    let mut i: usize = 0;
    while i < count
        invariant
            i <= count <= lines.len(),
            lines@ == content_lines(text@, newline, 0),
            forall|k: int|
                0 <= k < lines.len() ==> (#[trigger] lines[k]).start < lines[k].end <= text.len(),
            order@ == fields.read_order(),
            record == (|i: int| ascii_record(text@, lines@, *fields, i)),
            collect(i as nat, record) == Ok::<Seq<RawSplat>, PlyError>(splats@),
        decreases count - i,
    {
        let columns = split_words(text, lines[i]);
        match read_ascii_record(text, &columns, &order) {
            Err(e) => {
                proof {
                    assert(record(i as int) == Err::<RawSplat, PlyError>(e));
                    lemma_collect_fails((i + 1) as nat, count as nat, record);
                }
                return Err(e);
            },
            Ok(values) => {
                proof {
                    lemma_read_all(order@, ascii_cell(text@, columns@));
                }
                splats.push(assemble(fields, true, &values));
            },
        }
        i += 1;
    }
    Ok(splats)
}

} // verus!
