use crate::ascii::{ascii_record, ascii_splats, decode_ascii};
use crate::binary::{binary_record, binary_splats, decode_binary};
use crate::error::PlyError;
use crate::fields::{
    entries, fields_of, find_vertex, has_list, lowercase_of, name_table, resolve_fields, table_of,
    vertex_from, vertex_index,
};
use crate::header::{header_of, parse_header, ElementView, HeaderView};
use crate::raw::{lemma_collect, RawSplat};
use crate::scalar::PlyFormat;
use crate::scan::{header_end_at, lemma_header_end_from};
use crate::text::{chars_of, content_lines, text_of_bytes};
use vstd::prelude::*;
use vstd::slice::slice_subrange;
use vstd::utf8::*;

verus! {

/// The splats of a file as the file holds them: one record for each, in the
/// order of the file.
#[derive(Debug, Clone)]
pub struct RawSplats {
    /// The encoding of the records.
    pub format: PlyFormat,
    /// The number of records that the header declares.
    pub count: usize,
    /// The text of the records of an ASCII file, which the columns of the
    /// records point into; empty for a binary file.
    pub text: Vec<char>,
    pub splats: Vec<RawSplat>,
}

/// The splats of a file, as sequences.
pub struct SplatsView {
    pub format: PlyFormat,
    pub count: usize,
    pub text: Seq<char>,
    pub splats: Seq<RawSplat>,
}

impl View for RawSplats {
    type V = SplatsView;

    open spec fn view(&self) -> SplatsView {
        SplatsView {
            format: self.format,
            count: self.count,
            text: self.text@,
            splats: self.splats@,
        }
    }
}

/// The splats that the records of the vertex element `element` hold. An
/// element with a list property is refused before its fields are looked up;
/// the records are read only when every required field was found.
pub open spec fn element_splats(bytes: Seq<u8>, header: HeaderView, element: ElementView) -> Result<
    SplatsView,
    PlyError,
> {
    let table = table_of(element.properties);
    if has_list(element.properties) {
        Err(PlyError::UnsupportedListProperty)
    } else {
        match fields_of(table) {
            Err(e) => Err(e),
            Ok(fields) => match header.format {
                PlyFormat::Ascii => {
                    let data = bytes.subrange(header.data_offset as int, bytes.len() as int);
                    if !valid_utf8(data) {
                        Err(PlyError::DataEncoding)
                    } else {
                        match ascii_splats(
                            decode_utf8(data),
                            header.newline,
                            fields,
                            element.count as nat,
                        ) {
                            Err(e) => Err(e),
                            Ok(splats) => Ok(
                                SplatsView {
                                    format: header.format,
                                    count: element.count,
                                    text: decode_utf8(data),
                                    splats,
                                },
                            ),
                        }
                    }
                },
                _ => match binary_splats(
                    bytes,
                    header.data_offset as int,
                    table,
                    fields,
                    header.format is BinaryLittleEndian,
                    element.count as nat,
                ) {
                    Err(e) => Err(e),
                    Ok(splats) => Ok(
                        SplatsView {
                            format: header.format,
                            count: element.count,
                            text: Seq::empty(),
                            splats,
                        },
                    ),
                },
            },
        }
    }
}

/// The splats that a file holds, or the first error that reading it meets:
/// in the header, then in the lookup of the vertex element and of its
/// fields, then in the records.
pub open spec fn splats_of(bytes: Seq<u8>) -> Result<SplatsView, PlyError> {
    match header_of(bytes) {
        Err(e) => Err(e),
        Ok(header) => splats_under(bytes, header),
    }
}

/// The splats that a file holds under a given header: those of the first
/// element that goes by the name of the vertex element.
pub open spec fn splats_under(bytes: Seq<u8>, header: HeaderView) -> Result<SplatsView, PlyError> {
    match vertex_index(header.elements) {
        None => Err(PlyError::MissingVertex),
        Some(i) => element_splats(bytes, header, header.elements[i]),
    }
}

/// Reads the splats of a file. The result holds one record for each record
/// that the header declares; on any error nothing else is returned.
pub fn decode_splat_ply(bytes: &[u8]) -> (r: Result<RawSplats, PlyError>)
    ensures
        match r {
            Ok(found) => splats_of(bytes@) == Ok::<SplatsView, PlyError>(found@),
            Err(e) => splats_of(bytes@) == Err::<SplatsView, PlyError>(e),
        },
        r matches Ok(found) ==> found.splats.len() == found.count,
        (forall|i: int| header_end_at(bytes@, i) is None) ==> r == Err::<RawSplats, PlyError>(
            PlyError::HeaderMalformed,
        ),
{
    proof {
        if forall|i: int| header_end_at(bytes@, i) is None {
            lemma_unclosed_header(bytes@);
        }
    }
    let header = match parse_header(bytes) {
        Err(e) => {
            return Err(e);
        },
        Ok(h) => h,
    };
    let at = match find_vertex(&header.elements) {
        None => {
            return Err(PlyError::MissingVertex);
        },
        Some(i) => i,
    };
    let element = &header.elements[at];
    assert(header@.elements[at as int] == element@);
    let table = match name_table(&element.properties) {
        Err(e) => {
            return Err(e);
        },
        Ok(t) => t,
    };
    let fields = match resolve_fields(&table) {
        Err(e) => {
            return Err(e);
        },
        Ok(f) => f,
    };
    let count = element.count;
    match header.format {
        PlyFormat::Ascii => {
            let data = slice_subrange(bytes, header.data_offset, bytes.len());
            let source = match text_of_bytes(data) {
                None => {
                    return Err(PlyError::DataEncoding);
                },
                Some(s) => s,
            };
            let text = chars_of(source);
            match decode_ascii(&text, header.newline, &fields, count) {
                Err(e) => Err(e),
                Ok(splats) => {
                    proof {
                        lemma_collect(
                            count as nat,
                            |i: int|
                                ascii_record(
                                    text@,
                                    content_lines(text@, header.newline, 0),
                                    fields,
                                    i,
                                ),
                        );
                    }
                    Ok(RawSplats { format: header.format, count, text, splats })
                },
            }
        },
        PlyFormat::BinaryLittleEndian | PlyFormat::BinaryBigEndian => {
            let little = matches!(header.format, PlyFormat::BinaryLittleEndian);
            match decode_binary(bytes, header.data_offset, &table, &fields, little, count) {
                Err(e) => Err(e),
                Ok(splats) => {
                    proof {
                        lemma_collect(
                            count as nat,
                            |i: int|
                                binary_record(
                                    bytes@,
                                    header.data_offset as int,
                                    entries(table@),
                                    fields,
                                    little,
                                    i,
                                ),
                        );
                    }
                    let text: Vec<char> = Vec::new();
                    Ok(RawSplats { format: header.format, count, text, splats })
                },
            }
        },
    }
}


/// A buffer in which no `end_header` with a line break behind it stands,
/// an empty one or one that was cut short among them, is refused as
/// malformed, whatever else it holds.
pub proof fn lemma_unclosed_header(bytes: Seq<u8>)
    requires
        bytes.len() <= usize::MAX,
        forall|i: int| header_end_at(bytes, i) is None,
    ensures
        header_of(bytes) == Err::<HeaderView, PlyError>(PlyError::HeaderMalformed),
        splats_of(bytes) == Err::<SplatsView, PlyError>(PlyError::HeaderMalformed),
{
    lemma_header_end_from(bytes, 0);
}

/// A vertex element that declares a list property is refused, whatever its
/// other properties and the records hold.
pub proof fn lemma_list_property_refused(bytes: Seq<u8>)
    requires
        header_of(bytes) matches Ok(header) && vertex_index(header.elements) matches Some(i)
            && has_list(header.elements[i].properties),
    ensures
        splats_of(bytes) == Err::<SplatsView, PlyError>(PlyError::UnsupportedListProperty),
{
}

/// The lookup of the vertex element goes by the lower-case form of the
/// names alone: elements whose names agree in lower case are found at the
/// same place.
pub proof fn lemma_vertex_lookup_ignores_case(a: Seq<ElementView>, b: Seq<ElementView>)
    requires
        a.len() == b.len(),
        forall|i: int| 0 <= i < a.len() ==> lowercase_of(a[i].name) == lowercase_of(b[i].name),
    ensures
        vertex_index(a) == vertex_index(b),
{
    lemma_vertex_from_ignores_case(a, b, 0);
}

proof fn lemma_vertex_from_ignores_case(a: Seq<ElementView>, b: Seq<ElementView>, from: int)
    requires
        a.len() == b.len(),
        forall|i: int| 0 <= i < a.len() ==> lowercase_of(a[i].name) == lowercase_of(b[i].name),
    ensures
        vertex_from(a, from) == vertex_from(b, from),
        vertex_from(a, from) matches Some(i) ==> from <= i < a.len(),
    decreases a.len() - from,
{
    if 0 <= from < a.len() {
        lemma_vertex_from_ignores_case(a, b, from + 1);
    }
}

/// Two headers that differ only in the case of the names of their elements
/// lead to the same splats: a vertex element written `VERTEX` is read as one
/// written `vertex`.
pub proof fn lemma_splats_ignore_element_case(bytes: Seq<u8>, a: HeaderView, b: HeaderView)
    requires
        a.format == b.format,
        a.data_offset == b.data_offset,
        a.newline == b.newline,
        a.elements.len() == b.elements.len(),
        forall|i: int|
            0 <= i < a.elements.len() ==> lowercase_of(a.elements[i].name) == lowercase_of(
                b.elements[i].name,
            ) && a.elements[i].count == b.elements[i].count && a.elements[i].properties
                == b.elements[i].properties,
    ensures
        splats_under(bytes, a) == splats_under(bytes, b),
{
    lemma_vertex_from_ignores_case(a.elements, b.elements, 0);
}

} // verus!
