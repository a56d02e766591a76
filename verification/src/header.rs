use crate::error::PlyError;
use crate::number::{count_of, parse_count};
use crate::scalar::{Newline, PlyFormat, PlyScalarType};
use crate::scan::{find_header_end, header_end};
use crate::text::{
    chars_of, content_lines, same_text, span_is, split_lines, split_words, text_of_bytes, words,
    Span,
};
use vstd::prelude::*;
use vstd::slice::slice_subrange;
use vstd::string::*;
use vstd::utf8::*;

verus! {

/// A property that an element declares for each of its records: one value of
/// a scalar type, or a list of values behind their count.
#[derive(Debug, Clone)]
pub enum PlyProperty {
    Scalar { name: String, ty: PlyScalarType },
    List { name: String, count_ty: PlyScalarType, item_ty: PlyScalarType },
}

/// A property, with its name as a sequence of characters.
pub enum PropertyView {
    Scalar { name: Seq<char>, ty: PlyScalarType },
    List { name: Seq<char>, count_ty: PlyScalarType, item_ty: PlyScalarType },
}

impl View for PlyProperty {
    type V = PropertyView;

    open spec fn view(&self) -> PropertyView {
        match *self {
            PlyProperty::Scalar { name, ty } => PropertyView::Scalar { name: name@, ty },
            PlyProperty::List { name, count_ty, item_ty } => PropertyView::List {
                name: name@,
                count_ty,
                item_ty,
            },
        }
    }
}

/// An element that the header declares: its name, the number of its records
/// and the properties of each record, in the order of the file.
#[derive(Debug, Clone)]
pub struct PlyElement {
    pub name: String,
    pub count: usize,
    pub properties: Vec<PlyProperty>,
}

/// An element, with its name as a sequence of characters.
pub struct ElementView {
    pub name: Seq<char>,
    pub count: usize,
    pub properties: Seq<PropertyView>,
}

impl View for PlyElement {
    type V = ElementView;

    open spec fn view(&self) -> ElementView {
        ElementView {
            name: self.name@,
            count: self.count,
            properties: self.properties@.map_values(|p: PlyProperty| p@),
        }
    }
}

/// What a header says: the encoding of the records, the elements in the order
/// of their declaration, the position of the first byte behind the header and
/// the line break in use.
#[derive(Debug, Clone)]
pub struct ParsedHeader {
    pub format: PlyFormat,
    pub elements: Vec<PlyElement>,
    pub data_offset: usize,
    pub newline: Newline,
}

/// A header, with its elements as a sequence.
pub struct HeaderView {
    pub format: PlyFormat,
    pub elements: Seq<ElementView>,
    pub data_offset: usize,
    pub newline: Newline,
}

impl View for ParsedHeader {
    type V = HeaderView;

    open spec fn view(&self) -> HeaderView {
        HeaderView {
            format: self.format,
            elements: self.elements@.map_values(|e: PlyElement| e@),
            data_offset: self.data_offset,
            newline: self.newline,
        }
    }
}

/// What has been read of a header so far: the last encoding named, the
/// elements that are complete, and the element whose properties are being
/// read.
pub struct DraftView {
    pub format: Option<PlyFormat>,
    pub elements: Seq<ElementView>,
    pub current: Option<ElementView>,
}

impl DraftView {
    /// The draft before any line was read.
    pub open spec fn start() -> DraftView {
        DraftView { format: None, elements: Seq::empty(), current: None }
    }

    /// The elements read so far, the one being read included.
    pub open spec fn all_elements(self) -> Seq<ElementView> {
        match self.current {
            Some(el) => self.elements.push(el),
            None => self.elements,
        }
    }

    /// The draft after one more property of the element being read.
    pub open spec fn with_property(self, p: PropertyView) -> DraftView {
        DraftView {
            format: self.format,
            elements: self.elements,
            current: Some(
                ElementView {
                    name: self.current->0.name,
                    count: self.current->0.count,
                    properties: self.current->0.properties.push(p),
                },
            ),
        }
    }
}

/// The word at position `i` of a line, or the empty word where the line has
/// fewer.
pub open spec fn word_at(line: Seq<Seq<char>>, i: int) -> Seq<char> {
    if 0 <= i < line.len() {
        line[i]
    } else {
        Seq::empty()
    }
}

/// What a `property` line adds to the element being read. The words of a
/// list are all asked for before the two types are looked at; the type of a
/// scalar is looked at before its name is asked for.
pub open spec fn property_of(line: Seq<Seq<char>>) -> Result<PropertyView, PlyError> {
    if line.len() < 2 {
        Err(PlyError::BadProperty)
    } else if line[1] == "list"@ {
        if line.len() < 5 {
            Err(PlyError::BadProperty)
        } else {
            match (PlyScalarType::named(line[2]), PlyScalarType::named(line[3])) {
                (Some(count_ty), Some(item_ty)) => Ok(
                    PropertyView::List { name: line[4], count_ty, item_ty },
                ),
                _ => Err(PlyError::BadPropertyType),
            }
        }
    } else {
        match PlyScalarType::named(line[1]) {
            None => Err(PlyError::BadPropertyType),
            Some(ty) => if line.len() < 3 {
                Err(PlyError::BadProperty)
            } else {
                Ok(PropertyView::Scalar { name: line[2], ty })
            },
        }
    }
}

/// The element that an `element` line opens.
pub open spec fn element_of(line: Seq<Seq<char>>) -> Result<ElementView, PlyError> {
    if line.len() < 3 {
        Err(PlyError::BadElementOrCount)
    } else {
        match count_of(line[2]) {
            None => Err(PlyError::BadElementOrCount),
            Some(count) => Ok(ElementView { name: line[1], count, properties: Seq::empty() }),
        }
    }
}

/// The draft after one line of the header, given as its words. The first
/// word decides: comments pass, a `format` line replaces the encoding named
/// before, an `element` line closes the element being read and opens the
/// next, a `property` line adds to the element being read.
pub open spec fn directive(draft: DraftView, line: Seq<Seq<char>>) -> Result<DraftView, PlyError> {
    let tag = word_at(line, 0);
    if tag == "comment"@ || tag == "obj_info"@ {
        Ok(draft)
    } else if tag == "format"@ {
        match PlyFormat::named(word_at(line, 1)) {
            Some(f) => Ok(
                DraftView { format: Some(f), elements: draft.elements, current: draft.current },
            ),
            None => Err(PlyError::UnsupportedFormat),
        }
    } else if tag == "element"@ {
        match element_of(line) {
            Err(e) => Err(e),
            Ok(el) => Ok(
                DraftView {
                    format: draft.format,
                    elements: draft.all_elements(),
                    current: Some(el),
                },
            ),
        }
    } else if tag == "property"@ {
        if draft.current is None {
            Err(PlyError::PropertyBeforeElement)
        } else {
            match property_of(line) {
                Err(e) => Err(e),
                Ok(p) => Ok(draft.with_property(p)),
            }
        }
    } else {
        Err(PlyError::UnknownDirective)
    }
}

/// Of two `format` lines the later one counts: whatever encoding was named
/// before, a `format` line that names a known encoding leaves that one, and
/// nothing else changes.
pub proof fn lemma_later_format_counts(draft: DraftView, line: Seq<Seq<char>>)
    requires
        word_at(line, 0) == "format"@,
        PlyFormat::named(word_at(line, 1)) is Some,
    ensures
        directive(draft, line) matches Ok(next) && next.format == PlyFormat::named(
            word_at(line, 1),
        ) && next.elements == draft.elements && next.current == draft.current,
{
    reveal_strlit("format");
    reveal_strlit("comment");
    reveal_strlit("obj_info");
    assert("format"@ != "comment"@) by {
        assert("format"@[0] != "comment"@[0]);
    }
    assert("format"@ != "obj_info"@) by {
        assert("format"@[0] != "obj_info"@[0]);
    }
}

/// The characters that each of the spans covers.
pub open spec fn span_texts(text: Seq<char>, spans: Seq<Span>) -> Seq<Seq<char>> {
    spans.map_values(|w: Span| w.of(text))
}

/// The words of the line that `line` covers.
pub open spec fn line_words(text: Seq<char>, line: Span) -> Seq<Seq<char>> {
    span_texts(text, words(text, line.start as int, line.end as int))
}

/// The draft after the lines from position `i` on, up to the first line that
/// reads `end_header` or to the first error.
pub open spec fn read_directives(text: Seq<char>, lines: Seq<Span>, i: int, draft: DraftView)
    -> Result<DraftView, PlyError>
    decreases lines.len() - i,
{
    if i < 0 || i >= lines.len() || lines[i].of(text) == "end_header"@ {
        Ok(draft)
    } else {
        match directive(draft, line_words(text, lines[i])) {
            Err(e) => Err(e),
            Ok(next) => read_directives(text, lines, i + 1, next),
        }
    }
}

/// What the text of a header says. Its first line must read `ply`; a header
/// that names no encoding is refused when all its lines were read.
pub open spec fn header_of_text(text: Seq<char>, newline: Newline, data_offset: usize) -> Result<
    HeaderView,
    PlyError,
> {
    let lines = content_lines(text, newline, 0);
    if lines.len() == 0 || lines[0].of(text) != "ply"@ {
        Err(PlyError::HeaderMagic)
    } else {
        match read_directives(text, lines, 1, DraftView::start()) {
            Err(e) => Err(e),
            Ok(draft) => match draft.format {
                None => Err(PlyError::MissingFormat),
                Some(format) => Ok(
                    HeaderView { format, elements: draft.all_elements(), data_offset, newline },
                ),
            },
        }
    }
}

/// What the header of `bytes` says: the bytes up to the end of the header,
/// read as UTF-8 text.
pub open spec fn header_of(bytes: Seq<u8>) -> Result<HeaderView, PlyError> {
    match header_end(bytes) {
        None => Err(PlyError::HeaderMalformed),
        Some((end, newline)) => {
            let head = bytes.subrange(0, end as int);
            if valid_utf8(head) {
                header_of_text(decode_utf8(head), newline, end)
            } else {
                Err(PlyError::HeaderEncoding)
            }
        },
    }
}


struct HeaderDraft {
    format: Option<PlyFormat>,
    elements: Vec<PlyElement>,
    current: Option<PlyElement>,
}

impl View for HeaderDraft {
    type V = DraftView;

    closed spec fn view(&self) -> DraftView {
        DraftView {
            format: self.format,
            elements: self.elements@.map_values(|e: PlyElement| e@),
            current: match self.current {
                Some(el) => Some(el@),
                None => None,
            },
        }
    }
}

spec fn spans_within(spans: Seq<Span>, len: nat) -> bool {
    forall|i: int| 0 <= i < spans.len() ==> (#[trigger] spans[i]).within(len)
}

fn word_text<'a>(source: &'a str, w: Span) -> (s: &'a str)
    requires
        w.within(source@.len()),
    ensures
        s@ == w.of(source@),
{
    source.substring_char(w.start, w.end)
}

fn read_property(source: &str, found: &Vec<Span>) -> (r: Result<PlyProperty, PlyError>)
    requires
        spans_within(found@, source@.len()),
    ensures
        match r {
            Ok(p) => property_of(span_texts(source@, found@)) == Ok::<PropertyView, PlyError>(p@),
            Err(e) => property_of(span_texts(source@, found@)) == Err::<PropertyView, PlyError>(e),
        },
{
    let ghost line = span_texts(source@, found@);
    if found.len() < 2 {
        return Err(PlyError::BadProperty);
    }
    let first = word_text(source, found[1]);
    assert(line[1] == first@);
    if same_text(first, "list") {
        if found.len() < 5 {
            return Err(PlyError::BadProperty);
        }
        let count_word = word_text(source, found[2]);
        let item_word = word_text(source, found[3]);
        let name = word_text(source, found[4]);
        assert(line[2] == count_word@ && line[3] == item_word@ && line[4] == name@);
        let count_ty = match PlyScalarType::parse(count_word) {
            Some(ty) => ty,
            None => {
                return Err(PlyError::BadPropertyType);
            },
        };
        let item_ty = match PlyScalarType::parse(item_word) {
            Some(ty) => ty,
            None => {
                return Err(PlyError::BadPropertyType);
            },
        };
        Ok(PlyProperty::List { name: name.to_owned(), count_ty, item_ty })
    } else {
        let ty = match PlyScalarType::parse(first) {
            Some(ty) => ty,
            None => {
                return Err(PlyError::BadPropertyType);
            },
        };
        if found.len() < 3 {
            return Err(PlyError::BadProperty);
        }
        let name = word_text(source, found[2]);
        assert(line[2] == name@);
        Ok(PlyProperty::Scalar { name: name.to_owned(), ty })
    }
}

fn read_element(source: &str, text: &Vec<char>, found: &Vec<Span>) -> (r: Result<
    PlyElement,
    PlyError,
>)
    requires
        text@ == source@,
        spans_within(found@, source@.len()),
    ensures
        match r {
            Ok(el) => element_of(span_texts(source@, found@)) == Ok::<ElementView, PlyError>(el@),
            Err(e) => element_of(span_texts(source@, found@)) == Err::<ElementView, PlyError>(e),
        },
{
    let ghost line = span_texts(source@, found@);
    if found.len() < 3 {
        return Err(PlyError::BadElementOrCount);
    }
    let name = word_text(source, found[1]);
    assert(line[1] == name@ && line[2] == found[2].of(text@));
    match parse_count(text, found[2]) {
        None => Err(PlyError::BadElementOrCount),
        Some(count) => {
            let el = PlyElement { name: name.to_owned(), count, properties: Vec::new() };
            assert(el@.properties =~= Seq::empty());
            Ok(el)
        },
    }
}

fn apply_directive(draft: HeaderDraft, source: &str, text: &Vec<char>, found: &Vec<Span>) -> (r:
    Result<HeaderDraft, PlyError>)
    requires
        text@ == source@,
        spans_within(found@, source@.len()),
    ensures
        match r {
            Ok(next) => directive(draft@, span_texts(source@, found@)) == Ok::<
                DraftView,
                PlyError,
            >(next@),
            Err(e) => directive(draft@, span_texts(source@, found@)) == Err::<DraftView, PlyError>(
                e,
            ),
        },
{
    let ghost line = span_texts(source@, found@);
    let tag: &str = if found.len() > 0 {
        word_text(source, found[0])
    } else {
        ""
    };
    proof {
        reveal_strlit("");
        if found.len() > 0 {
            assert(line[0] == tag@);
        }
        assert(tag@ =~= word_at(line, 0));
    }
    let HeaderDraft { format, elements, current } = draft;
    if same_text(tag, "comment") || same_text(tag, "obj_info") {
        Ok(HeaderDraft { format, elements, current })
    } else if same_text(tag, "format") {
        let kind: &str = if found.len() > 1 {
            word_text(source, found[1])
        } else {
            ""
        };
        proof {
            if found.len() > 1 {
                assert(line[1] == kind@);
            }
            assert(kind@ =~= word_at(line, 1));
        }
        match PlyFormat::parse(kind) {
            Some(f) => Ok(HeaderDraft { format: Some(f), elements, current }),
            None => Err(PlyError::UnsupportedFormat),
        }
    } else if same_text(tag, "element") {
        let mut elements = elements;
        let ghost before = elements@;
        if let Some(el) = current {
            elements.push(el);
            assert(elements@.map_values(|e: PlyElement| e@) =~= before.map_values(
                |e: PlyElement| e@,
            ).push(el@));
        }
        match read_element(source, text, found) {
            Err(e) => Err(e),
            Ok(el) => Ok(HeaderDraft { format, elements, current: Some(el) }),
        }
    } else if same_text(tag, "property") {
        match current {
            None => Err(PlyError::PropertyBeforeElement),
            Some(el) => {
                match read_property(source, found) {
                    Err(e) => Err(e),
                    Ok(p) => {
                        let PlyElement { name, count, properties } = el;
                        let mut properties = properties;
                        let ghost before = properties@;
                        properties.push(p);
                        assert(properties@.map_values(|q: PlyProperty| q@) =~= before.map_values(
                            |q: PlyProperty| q@,
                        ).push(p@));
                        Ok(
                            HeaderDraft {
                                format,
                                elements,
                                current: Some(PlyElement { name, count, properties }),
                            },
                        )
                    },
                }
            },
        }
    } else {
        Err(PlyError::UnknownDirective)
    }
}


fn read_header_text(source: &str, newline: Newline, data_offset: usize) -> (r: Result<
    ParsedHeader,
    PlyError,
>)
    ensures
        match r {
            Ok(h) => header_of_text(source@, newline, data_offset) == Ok::<HeaderView, PlyError>(
                h@,
            ),
            Err(e) => header_of_text(source@, newline, data_offset) == Err::<HeaderView, PlyError>(
                e,
            ),
        },
{
    let text = chars_of(source);
    let lines = split_lines(&text, newline);
    if lines.len() == 0 || !span_is(&text, lines[0], "ply") {
        return Err(PlyError::HeaderMagic);
    }
    let mut draft = HeaderDraft { format: None, elements: Vec::new(), current: None };
    assert(draft@.elements =~= Seq::empty());
    let mut i: usize = 1;
    while i < lines.len()
        invariant_except_break
            1 <= i <= lines.len(),
            read_directives(text@, lines@, i as int, draft@) == read_directives(
                text@,
                lines@,
                1,
                DraftView::start(),
            ),
        invariant
            text@ == source@,
            lines@ == content_lines(text@, newline, 0),
            lines.len() > 0 && lines[0].of(text@) == "ply"@,
            forall|k: int|
                0 <= k < lines.len() ==> (#[trigger] lines[k]).start < lines[k].end <= text.len(),
        ensures
            read_directives(text@, lines@, 1, DraftView::start()) == Ok::<DraftView, PlyError>(
                draft@,
            ),
        decreases lines.len() - i,
    {
        if span_is(&text, lines[i], "end_header") {
            break;
        }
        let found = split_words(&text, lines[i]);
        assert(span_texts(source@, found@) == line_words(text@, lines[i as int]));
        match apply_directive(draft, source, &text, &found) {
            Err(e) => {
                return Err(e);
            },
            Ok(next) => {
                draft = next;
            },
        }
        i += 1;
    }
    let HeaderDraft { format, elements, current } = draft;
    let mut elements = elements;
    let ghost before = elements@;
    if let Some(el) = current {
        elements.push(el);
        assert(elements@.map_values(|e: PlyElement| e@) =~= before.map_values(
            |e: PlyElement| e@,
        ).push(el@));
    }
    match format {
        None => Err(PlyError::MissingFormat),
        Some(format) => Ok(ParsedHeader { format, elements, data_offset, newline }),
    }
}

/// Reads the header of a file: finds its end, reads it as text and follows
/// its lines. The first error met is returned.
pub fn parse_header(bytes: &[u8]) -> (r: Result<ParsedHeader, PlyError>)
    ensures
        match r {
            Ok(h) => header_of(bytes@) == Ok::<HeaderView, PlyError>(h@),
            Err(e) => header_of(bytes@) == Err::<HeaderView, PlyError>(e),
        },
        r is Ok ==> 11 <= r->Ok_0.data_offset <= bytes.len(),
{
    let (end, newline) = match find_header_end(bytes) {
        Err(e) => {
            return Err(e);
        },
        Ok(found) => found,
    };
    let head = slice_subrange(bytes, 0, end);
    match text_of_bytes(head) {
        None => Err(PlyError::HeaderEncoding),
        Some(source) => read_header_text(source, newline, end),
    }
}

} // verus!
