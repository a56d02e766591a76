use crate::scalar::Newline;
use vstd::prelude::*;
use vstd::string::*;
use vstd::utf8::*;

verus! {

/// A range of character positions in a text, the end excluded.
#[derive(Debug, Clone, Copy, PartialEq, Eq, Structural)]
pub struct Span {
    pub start: usize,
    pub end: usize,
}

impl Span {
    /// The span lies inside a text of `len` characters.
    pub open spec fn within(self, len: nat) -> bool {
        self.start <= self.end <= len
    }

    /// The characters of `text` that the span covers.
    pub open spec fn of(self, text: Seq<char>) -> Seq<char> {
        text.subrange(self.start as int, self.end as int)
    }
}

/// The span from `start` to `end`.
pub open spec fn span(start: int, end: int) -> Span {
    Span { start: start as usize, end: end as usize }
}

/// The characters with the Unicode property `White_Space`.
pub open spec fn is_white_space(c: char) -> bool {
    let u = c as u32;
    ||| 0x09 <= u <= 0x0D
    ||| u == 0x20
    ||| u == 0x85
    ||| u == 0xA0
    ||| u == 0x1680
    ||| 0x2000 <= u <= 0x200A
    ||| u == 0x2028
    ||| u == 0x2029
    ||| u == 0x202F
    ||| u == 0x205F
    ||| u == 0x3000
}

/// Tells whether a character is white space.
pub fn is_space(c: char) -> (b: bool)
    ensures
        b == is_white_space(c),
{
    let u: u32 = c as u32;
    (0x09 <= u && u <= 0x0D) || u == 0x20 || u == 0x85 || u == 0xA0 || u == 0x1680 || (0x2000 <= u
        && u <= 0x200A) || u == 0x2028 || u == 0x2029 || u == 0x202F || u == 0x205F || u == 0x3000
}

/// The error of `core::str::from_utf8`; nothing is read from it.
#[verifier::external_type_specification]
#[verifier::external_body]
pub struct ExUtf8Error(core::str::Utf8Error);

/// `core::str::from_utf8`: the bytes as a string slice when they are valid
/// UTF-8, and an error when they are not. The slice's encoding is the bytes.
pub assume_specification[ core::str::from_utf8 ](v: &[u8]) -> (r: Result<
    &str,
    core::str::Utf8Error,
>)
    ensures
        r is Ok <==> valid_utf8(v@),
        r matches Ok(s) ==> s.spec_bytes() == v@,
;

/// The bytes as a string slice, when they are valid UTF-8.
pub fn text_of_bytes(bytes: &[u8]) -> (text: Option<&str>)
    ensures
        text is Some <==> valid_utf8(bytes@),
        text matches Some(s) ==> s@ == decode_utf8(bytes@),
{
    match core::str::from_utf8(bytes) {
        Ok(s) => {
            proof {
                encode_utf8_decode_utf8(s@);
            }
            Some(s)
        },
        Err(_) => None,
    }
}

/// The characters of a string slice, one by one.
pub fn chars_of(s: &str) -> (out: Vec<char>)
    ensures
        out@ == s@,
{
    let mut out: Vec<char> = Vec::new();
    for c in it: s.chars()
        invariant
            out@ == it.seq().take(it.index() as int),
            it.seq() == s@,
    {
        out.push(c);
    }
    out
}

/// Whether two string slices hold the same characters.
pub fn same_text(a: &str, b: &str) -> (same: bool)
    ensures
        same == (a@ == b@),
{
    let x = chars_of(a);
    let y = chars_of(b);
    if x.len() != y.len() {
        return false;
    }
    let mut i: usize = 0;
    while i < x.len()
        invariant
            i <= x.len(),
            x.len() == y.len(),
            x@ == a@,
            y@ == b@,
            forall|j: int| 0 <= j < i ==> x@[j] == y@[j],
        decreases x.len() - i,
    {
        if x[i] != y[i] {
            return false;
        }
        i += 1;
    }
    assert(x@ =~= y@);
    true
}

/// Whether the part of a text that `part` covers reads `word`.
pub fn span_is(text: &Vec<char>, part: Span, word: &str) -> (same: bool)
    requires
        part.within(text@.len()),
    ensures
        same == (part.of(text@) == word@),
{
    let w = chars_of(word);
    if part.end - part.start != w.len() {
        return false;
    }
    let mut i: usize = 0;
    while i < w.len()
        invariant
            i <= w.len(),
            part.within(text@.len()),
            part.end - part.start == w.len(),
            w@ == word@,
            forall|j: int| 0 <= j < i ==> text@[part.start + j] == w@[j],
        decreases w.len() - i,
    {
        if text[part.start + i] != w[i] {
            assert(part.of(text@)[i as int] != w@[i as int]);
            return false;
        }
        i += 1;
    }
    assert(part.of(text@) =~= w@);
    true
}

/// A line break of kind `nl` starts at position `i`.
pub open spec fn break_at(text: Seq<char>, nl: Newline, i: int) -> bool {
    match nl {
        Newline::Lf => 0 <= i < text.len() && text[i] == '\n',
        Newline::CrLf => 0 <= i && i + 1 < text.len() && text[i] == '\r' && text[i + 1] == '\n',
    }
}

/// The position of the first line break at or after `from`, or the length of
/// the text when there is none.
pub open spec fn line_end(text: Seq<char>, nl: Newline, from: int) -> int
    decreases text.len() - from,
{
    if from >= text.len() {
        text.len() as int
    } else if break_at(text, nl, from) {
        from
    } else {
        line_end(text, nl, from + 1)
    }
}

/// The first position in `from..to` that holds no white space, or `to`.
pub open spec fn skip_space(text: Seq<char>, from: int, to: int) -> int
    decreases to - from,
{
    if from >= to {
        to
    } else if !is_white_space(text[from]) {
        from
    } else {
        skip_space(text, from + 1, to)
    }
}

/// The first position in `from..to` that holds white space, or `to`.
pub open spec fn skip_word(text: Seq<char>, from: int, to: int) -> int
    decreases to - from,
{
    if from >= to {
        to
    } else if is_white_space(text[from]) {
        from
    } else {
        skip_word(text, from + 1, to)
    }
}

/// The position after the last character in `from..to` that is no white
/// space, or `from`.
pub open spec fn drop_space(text: Seq<char>, from: int, to: int) -> int
    decreases to - from,
{
    if to <= from {
        from
    } else if !is_white_space(text[to - 1]) {
        to
    } else {
        drop_space(text, from, to - 1)
    }
}

/// What the piece `from..end` adds to the lines: itself without the white
/// space around it, unless nothing is left.
pub open spec fn line_content(text: Seq<char>, from: int, end: int) -> Seq<Span> {
    let start = skip_space(text, from, end);
    let stop = drop_space(text, start, end);
    if start < stop {
        seq![span(start, stop)]
    } else {
        Seq::empty()
    }
}

/// The lines of `text` from position `from` on: the pieces between line
/// breaks, each without the white space around it, the empty ones left out.
pub open spec fn content_lines(text: Seq<char>, nl: Newline, from: int) -> Seq<Span>
    decreases text.len() - from,
{
    let end = line_end(text, nl, from);
    if from <= end && end + nl.width() <= text.len() {
        line_content(text, from, end) + content_lines(text, nl, end + nl.width())
    } else {
        line_content(text, from, end)
    }
}

/// The words in `from..to`: the maximal runs of characters that are no white
/// space, in order.
pub open spec fn words(text: Seq<char>, from: int, to: int) -> Seq<Span>
    decreases to - from,
{
    let start = skip_space(text, from, to);
    let stop = skip_word(text, start, to);
    if from <= start < stop <= to {
        seq![span(start, stop)] + words(text, stop, to)
    } else {
        Seq::empty()
    }
}

/// A line ends at the first line break at or after its start, and at the end
/// of the text where no line break follows.
pub proof fn lemma_line_end_bounds(text: Seq<char>, nl: Newline, from: int)
    requires
        0 <= from <= text.len(),
    ensures
        from <= line_end(text, nl, from) <= text.len(),
        forall|j: int| from <= j < line_end(text, nl, from) ==> !break_at(text, nl, j),
        line_end(text, nl, from) < text.len() ==> break_at(text, nl, line_end(text, nl, from)),
        line_end(text, nl, from) < text.len() ==> line_end(text, nl, from) + nl.width()
            <= text.len(),
    decreases text.len() - from,
{
    if from < text.len() && !break_at(text, nl, from) {
        lemma_line_end_bounds(text, nl, from + 1);
    }
}

/// Only white space is skipped, and what stops the skipping is no white
/// space.
pub proof fn lemma_skip_space_bounds(text: Seq<char>, from: int, to: int)
    requires
        from <= to,
    ensures
        from <= skip_space(text, from, to) <= to,
        skip_space(text, from, to) < to ==> !is_white_space(text[skip_space(text, from, to)]),
        forall|j: int| from <= j < skip_space(text, from, to) ==> is_white_space(#[trigger] text[j]),
    decreases to - from,
{
    if from < to && is_white_space(text[from]) {
        lemma_skip_space_bounds(text, from + 1, to);
    }
}

/// A word holds no white space, and what ends it is white space or the end
/// of the stretch.
pub proof fn lemma_skip_word_bounds(text: Seq<char>, from: int, to: int)
    requires
        from <= to,
    ensures
        from <= skip_word(text, from, to) <= to,
        from < to && !is_white_space(text[from]) ==> from < skip_word(text, from, to),
        skip_word(text, from, to) < to ==> is_white_space(text[skip_word(text, from, to)]),
        forall|j: int| from <= j < skip_word(text, from, to) ==> !is_white_space(#[trigger] text[j]),
    decreases to - from,
{
    if from < to && !is_white_space(text[from]) {
        lemma_skip_word_bounds(text, from + 1, to);
    }
}

/// Only white space is dropped from the end, and what is kept ends in a
/// character that is no white space.
pub proof fn lemma_drop_space_bounds(text: Seq<char>, from: int, to: int)
    requires
        from <= to,
    ensures
        from <= drop_space(text, from, to) <= to,
        from < drop_space(text, from, to) ==> !is_white_space(
            text[drop_space(text, from, to) - 1],
        ),
        forall|j: int| drop_space(text, from, to) <= j < to ==> is_white_space(#[trigger] text[j]),
    decreases to - from,
{
    if from < to && is_white_space(text[to - 1]) {
        lemma_drop_space_bounds(text, from, to - 1);
    }
}

/// Position `j` lies in one of the spans.
pub open spec fn covered(spans: Seq<Span>, j: int) -> bool {
    exists|k: int| 0 <= k < spans.len() && (#[trigger] spans[k]).start <= j < spans[k].end
}

/// The character at position `j` is no white space.
pub open spec fn solid(text: Seq<char>, j: int) -> bool {
    !is_white_space(text[j])
}

/// The words of a stretch of text are its maximal runs of characters that
/// are no white space: each word lies in the stretch and holds at least one
/// character and no white space, white space stands between one word and
/// the next, and every character that is no white space lies in a word.
pub proof fn lemma_words(text: Seq<char>, from: int, to: int)
    requires
        0 <= from <= to <= text.len() <= usize::MAX,
    ensures
        forall|k: int|
            0 <= k < words(text, from, to).len() ==> from <= (#[trigger] words(
                text,
                from,
                to,
            )[k]).start < words(text, from, to)[k].end <= to,
        forall|k: int, j: int|
            0 <= k < words(text, from, to).len() && (#[trigger] words(text, from, to)[k]).start
                <= j < words(text, from, to)[k].end ==> #[trigger] solid(text, j),
        forall|k: int|
            0 <= k < words(text, from, to).len() - 1 ==> (#[trigger] words(text, from, to)[k]).end
                < words(text, from, to)[k + 1].start,
        forall|j: int|
            from <= j < to && #[trigger] solid(text, j) ==> covered(words(text, from, to), j),
    decreases to - from,
{
    let all = words(text, from, to);
    let start = skip_space(text, from, to);
    let stop = skip_word(text, start, to);
    lemma_skip_space_bounds(text, from, to);
    lemma_skip_word_bounds(text, start, to);
    if from <= start < stop <= to {
        let rest = words(text, stop, to);
        lemma_words(text, stop, to);
        assert(all == seq![span(start, stop)] + rest);
        assert(all[0] == span(start, stop));
        assert(forall|k: int| 1 <= k < all.len() ==> all[k] == rest[k - 1]);
        assert forall|k: int| 0 <= k < all.len() - 1 implies (#[trigger] all[k]).end < all[k
            + 1].start by {
            if k == 0 {
                assert(all[1] == rest[0]);
                if rest[0].start == stop {
                    assert(solid(text, stop));
                }
            } else {
                assert(all[k] == rest[k - 1]);
                assert(all[k + 1] == rest[k]);
            }
        }
        assert forall|j: int| from <= j < to && #[trigger] solid(text, j) implies covered(
            all,
            j,
        ) by {
            if j < stop {
                assert(all[0].start <= j < all[0].end);
            } else {
                assert(covered(rest, j));
                let k = choose|k: int|
                    0 <= k < rest.len() && (#[trigger] rest[k]).start <= j < rest[k].end;
                assert(all[k + 1] == rest[k]);
            }
        }
        assert forall|k: int, j: int|
            0 <= k < all.len() && (#[trigger] all[k]).start <= j < all[k].end implies #[trigger] solid(
            text,
            j,
        ) by {
            if k > 0 {
                assert(all[k] == rest[k - 1]);
            }
        }
    }
}

/// A line break stands somewhere in `from..to`.
pub open spec fn broken(text: Seq<char>, nl: Newline, from: int, to: int) -> bool {
    exists|j: int| from <= j < to && #[trigger] break_at(text, nl, j)
}

/// A line as it should be: it lies behind `from`, holds at least one
/// character, begins and ends with a character that is no white space and
/// holds no line break.
pub open spec fn is_line(text: Seq<char>, nl: Newline, from: int, line: Span) -> bool {
    &&& from <= line.start < line.end <= text.len()
    &&& solid(text, line.start as int)
    &&& solid(text, line.end - 1)
    &&& !broken(text, nl, line.start as int, line.end as int)
}

/// Every character in `from..to` that is no white space lies in one of the
/// spans.
pub open spec fn all_covered(text: Seq<char>, spans: Seq<Span>, from: int, to: int) -> bool {
    forall|j: int| from <= j < to && #[trigger] solid(text, j) ==> covered(spans, j)
}

/// A line break stands between each span and the next.
pub open spec fn all_broken(text: Seq<char>, nl: Newline, spans: Seq<Span>) -> bool {
    forall|k: int|
        0 <= k < spans.len() - 1 ==> broken(
            text,
            nl,
            (#[trigger] spans[k]).end as int,
            spans[k + 1].start as int,
        )
}

/// Each of the spans is a line behind `from`.
pub open spec fn all_lines(text: Seq<char>, nl: Newline, from: int, spans: Seq<Span>) -> bool {
    forall|k: int| 0 <= k < spans.len() ==> is_line(text, nl, from, #[trigger] spans[k])
}

proof fn lemma_line_content(text: Seq<char>, nl: Newline, from: int, end: int)
    requires
        0 <= from <= end <= text.len() <= usize::MAX,
        !broken(text, nl, from, end),
    ensures
        line_content(text, from, end).len() <= 1,
        all_lines(text, nl, from, line_content(text, from, end)),
        line_content(text, from, end).len() == 1 ==> line_content(text, from, end)[0].end <= end,
        all_covered(text, line_content(text, from, end), from, end),
{
    let start = skip_space(text, from, end);
    lemma_skip_space_bounds(text, from, end);
    let stop = drop_space(text, start, end);
    lemma_drop_space_bounds(text, start, end);
    let head = line_content(text, from, end);
    if start < stop {
        assert(head[0] == span(start, stop));
        assert(!broken(text, nl, start, stop)) by {
            if broken(text, nl, start, stop) {
                let j = choose|j: int| start <= j < stop && #[trigger] break_at(text, nl, j);
                assert(from <= j < end && break_at(text, nl, j));
            }
        }
        assert forall|j: int| from <= j < end && #[trigger] solid(text, j) implies covered(
            head,
            j,
        ) by {
            assert(head[0].start <= j < head[0].end);
        }
    }
}

proof fn lemma_join_are_lines(
    text: Seq<char>,
    nl: Newline,
    from: int,
    next: int,
    head: Seq<Span>,
    rest: Seq<Span>,
)
    requires
        from <= next,
        all_lines(text, nl, from, head),
        all_lines(text, nl, next, rest),
    ensures
        all_lines(text, nl, from, head + rest),
{
    let all = head + rest;
    assert forall|k: int| 0 <= k < all.len() implies is_line(text, nl, from, #[trigger] all[k]) by {
        if k < head.len() {
            assert(all[k] == head[k]);
        } else {
            assert(all[k] == rest[k - head.len()]);
        }
    }
}

proof fn lemma_join_are_broken(
    text: Seq<char>,
    nl: Newline,
    end: int,
    next: int,
    head: Seq<Span>,
    rest: Seq<Span>,
)
    requires
        end < next,
        break_at(text, nl, end),
        head.len() <= 1,
        head.len() == 1 ==> head[0].end <= end,
        all_lines(text, nl, next, rest),
        all_broken(text, nl, rest),
    ensures
        all_broken(text, nl, head + rest),
{
    let all = head + rest;
    let n = head.len() as int;
    assert forall|k: int| 0 <= k < all.len() - 1 implies broken(
        text,
        nl,
        (#[trigger] all[k]).end as int,
        all[k + 1].start as int,
    ) by {
        if k >= n {
            assert(all[k] == rest[k - n]);
            assert(all[k + 1] == rest[k + 1 - n]);
        } else {
            assert(all[k] == head[0]);
            assert(all[k + 1] == rest[0]);
            assert(is_line(text, nl, next, rest[0]));
            assert(all[k].end <= end < all[k + 1].start && break_at(text, nl, end));
        }
    }
}

proof fn lemma_join_are_covered(
    text: Seq<char>,
    from: int,
    end: int,
    next: int,
    head: Seq<Span>,
    rest: Seq<Span>,
)
    requires
        from <= end < next <= text.len(),
        forall|j: int| end <= j < next ==> !#[trigger] solid(text, j),
        all_covered(text, head, from, end),
        all_covered(text, rest, next, text.len() as int),
    ensures
        all_covered(text, head + rest, from, text.len() as int),
{
    let all = head + rest;
    let n = head.len() as int;
    assert forall|j: int| from <= j < text.len() && #[trigger] solid(text, j) implies covered(
        all,
        j,
    ) by {
        if j < end {
            assert(covered(head, j));
            let k = choose|k: int|
                0 <= k < head.len() && (#[trigger] head[k]).start <= j < head[k].end;
            assert(all[k] == head[k]);
        } else {
            assert(covered(rest, j));
            let k = choose|k: int|
                0 <= k < rest.len() && (#[trigger] rest[k]).start <= j < rest[k].end;
            assert(all[k + n] == rest[k]);
        }
    }
}

/// The lines of a text are its pieces between line breaks, trimmed: each
/// line holds at least one character, begins and ends with a character that
/// is no white space and holds no line break; a line break stands between
/// one line and the next; and every character that is no white space lies in
/// a line.
pub proof fn lemma_content_lines(text: Seq<char>, nl: Newline, from: int)
    requires
        0 <= from <= text.len() <= usize::MAX,
    ensures
        all_lines(text, nl, from, content_lines(text, nl, from)),
        all_broken(text, nl, content_lines(text, nl, from)),
        all_covered(text, content_lines(text, nl, from), from, text.len() as int),
    decreases text.len() - from,
{
    let all = content_lines(text, nl, from);
    let end = line_end(text, nl, from);
    lemma_line_end_bounds(text, nl, from);
    let head = line_content(text, from, end);
    lemma_line_content(text, nl, from, end);
    if from <= end && end + nl.width() <= text.len() {
        let next = end + nl.width();
        let rest = content_lines(text, nl, next);
        lemma_content_lines(text, nl, next);
        assert(all == head + rest);
        assert(break_at(text, nl, end));
        assert forall|j: int| end <= j < next implies !#[trigger] solid(text, j) by {
            assert(is_white_space(text[end]));
            if nl is CrLf {
                assert(is_white_space(text[end + 1]));
            }
        }
        lemma_join_are_lines(text, nl, from, next, head, rest);
        lemma_join_are_broken(text, nl, end, next, head, rest);
        lemma_join_are_covered(text, from, end, next, head, rest);
    } else {
        assert(all == head);
        assert(end == text.len());
    }
}

fn find_line_end(text: &Vec<char>, nl: Newline, from: usize) -> (end: usize)
    requires
        from <= text.len(),
    ensures
        end == line_end(text@, nl, from as int),
        from <= end <= text.len(),
{
    let mut i: usize = from;
    while i < text.len()
        invariant
            from <= i <= text.len(),
            line_end(text@, nl, i as int) == line_end(text@, nl, from as int),
        decreases text.len() - i,
    {
        let hit = match nl {
            Newline::Lf => text[i] == '\n',
            Newline::CrLf => i + 1 < text.len() && text[i] == '\r' && text[i + 1] == '\n',
        };
        if hit {
            return i;
        }
        i += 1;
    }
    i
}

fn find_word_start(text: &Vec<char>, from: usize, to: usize) -> (at: usize)
    requires
        from <= to <= text.len(),
    ensures
        at == skip_space(text@, from as int, to as int),
        from <= at <= to,
{
    let mut i: usize = from;
    while i < to
        invariant
            from <= i <= to <= text.len(),
            skip_space(text@, i as int, to as int) == skip_space(text@, from as int, to as int),
        decreases to - i,
    {
        if !is_space(text[i]) {
            return i;
        }
        i += 1;
    }
    i
}

fn find_word_end(text: &Vec<char>, from: usize, to: usize) -> (at: usize)
    requires
        from <= to <= text.len(),
    ensures
        at == skip_word(text@, from as int, to as int),
        from <= at <= to,
{
    let mut i: usize = from;
    while i < to
        invariant
            from <= i <= to <= text.len(),
            skip_word(text@, i as int, to as int) == skip_word(text@, from as int, to as int),
        decreases to - i,
    {
        if is_space(text[i]) {
            return i;
        }
        i += 1;
    }
    i
}

fn find_content_end(text: &Vec<char>, from: usize, to: usize) -> (at: usize)
    requires
        from <= to <= text.len(),
    ensures
        at == drop_space(text@, from as int, to as int),
        from <= at <= to,
{
    let mut i: usize = to;
    while i > from
        invariant
            from <= i <= to <= text.len(),
            drop_space(text@, from as int, i as int) == drop_space(text@, from as int, to as int),
        decreases i - from,
    {
        if !is_space(text[i - 1]) {
            return i;
        }
        i -= 1;
    }
    i
}

/// Splits a text at the line breaks of kind `nl` and gives the lines that hold
/// anything but white space, each without the white space around it.
pub fn split_lines(text: &Vec<char>, nl: Newline) -> (lines: Vec<Span>)
    ensures
        lines@ == content_lines(text@, nl, 0),
        forall|i: int|
            0 <= i < lines.len() ==> (#[trigger] lines[i]).start < lines[i].end <= text.len(),
{
    let mut lines: Vec<Span> = Vec::new();
    let mut pos: usize = 0;
    loop
        invariant_except_break
            pos <= text.len(),
            lines@ + content_lines(text@, nl, pos as int) == content_lines(text@, nl, 0),
        invariant
            forall|i: int|
                0 <= i < lines.len() ==> (#[trigger] lines[i]).start < lines[i].end <= text.len(),
        ensures
            lines@ == content_lines(text@, nl, 0),
            forall|i: int|
                0 <= i < lines.len() ==> (#[trigger] lines[i]).start < lines[i].end <= text.len(),
        decreases text.len() - pos,
    {
        let end = find_line_end(text, nl, pos);
        let start = find_word_start(text, pos, end);
        let stop = find_content_end(text, start, end);
        let ghost before = lines@;
        if start < stop {
            lines.push(Span { start, end: stop });
        }
        proof {
            lemma_line_end_bounds(text@, nl, pos as int);
            assert(lines@ == before + line_content(text@, pos as int, end as int));
        }
        if end >= text.len() {
            assert(lines@ =~= content_lines(text@, nl, 0));
            break;
        }
        let width: usize = match nl {
            Newline::Lf => 1,
            Newline::CrLf => 2,
        };
        assert(before + (line_content(text@, pos as int, end as int) + content_lines(
            text@,
            nl,
            end + nl.width(),
        )) =~= lines@ + content_lines(text@, nl, end + nl.width()));
        pos = end + width;
    }
    lines
}

/// Splits the part of a text that `part` covers into its words.
pub fn split_words(text: &Vec<char>, part: Span) -> (found: Vec<Span>)
    requires
        part.within(text@.len()),
    ensures
        found@ == words(text@, part.start as int, part.end as int),
        forall|i: int|
            0 <= i < found.len() ==> part.start <= (#[trigger] found[i]).start < found[i].end
                <= part.end,
{
    let mut found: Vec<Span> = Vec::new();
    let mut pos: usize = part.start;
    let to: usize = part.end;
    loop
        invariant_except_break
            part.start <= pos <= to <= text.len(),
            found@ + words(text@, pos as int, to as int) == words(
                text@,
                part.start as int,
                to as int,
            ),
        invariant
            to == part.end,
            forall|i: int|
                0 <= i < found.len() ==> part.start <= (#[trigger] found[i]).start < found[i].end
                    <= part.end,
        ensures
            found@ == words(text@, part.start as int, part.end as int),
            forall|i: int|
                0 <= i < found.len() ==> part.start <= (#[trigger] found[i]).start < found[i].end
                    <= part.end,
        decreases to - pos,
    {
        let start = find_word_start(text, pos, to);
        let stop = find_word_end(text, start, to);
        if start >= stop {
            assert(found@ =~= words(text@, part.start as int, to as int));
            break;
        }
        let ghost before = found@;
        found.push(Span { start, end: stop });
        assert(before + (seq![span(start as int, stop as int)] + words(
            text@,
            stop as int,
            to as int,
        )) =~= found@ + words(text@, stop as int, to as int));
        pos = stop;
    }
    found
}

} // verus!
