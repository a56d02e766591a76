use crate::error::PlyError;
use crate::scalar::Newline;
use vstd::prelude::*;

verus! {

/// The bytes of the word `end_header` stand at position `i`.
pub open spec fn sentinel_at(bytes: Seq<u8>, i: int) -> bool {
    &&& 0 <= i
    &&& i + 10 <= bytes.len()
    &&& bytes[i] == 0x65
    &&& bytes[i + 1] == 0x6e
    &&& bytes[i + 2] == 0x64
    &&& bytes[i + 3] == 0x5f
    &&& bytes[i + 4] == 0x68
    &&& bytes[i + 5] == 0x65
    &&& bytes[i + 6] == 0x61
    &&& bytes[i + 7] == 0x64
    &&& bytes[i + 8] == 0x65
    &&& bytes[i + 9] == 0x72
}

/// Where the header ends if the word that closes it stands at position `i`
/// with a line break right behind it: the position after the line break, and
/// the kind of line break.
pub open spec fn header_end_at(bytes: Seq<u8>, i: int) -> Option<(usize, Newline)> {
    if sentinel_at(bytes, i) && i + 10 < bytes.len() && bytes[i + 10] == 0x0a {
        Some(((i + 11) as usize, Newline::Lf))
    } else if sentinel_at(bytes, i) && i + 11 < bytes.len() && bytes[i + 10] == 0x0d && bytes[i
        + 11] == 0x0a {
        Some(((i + 12) as usize, Newline::CrLf))
    } else {
        None
    }
}

/// The end of the header that the first closing word at or after `from`
/// gives, if there is one.
pub open spec fn header_end_from(bytes: Seq<u8>, from: int) -> Option<(usize, Newline)>
    decreases bytes.len() - from,
{
    if from < 0 || from + 10 > bytes.len() {
        None
    } else if header_end_at(bytes, from) is Some {
        header_end_at(bytes, from)
    } else {
        header_end_from(bytes, from + 1)
    }
}

/// The end of the header of `bytes`, if the header is closed.
pub open spec fn header_end(bytes: Seq<u8>) -> Option<(usize, Newline)> {
    header_end_from(bytes, 0)
}

/// No header closes at a position from `from` on exactly when the scan from
/// there finds nothing; what it finds is the end that the least such
/// position gives.
pub proof fn lemma_header_end_from(bytes: Seq<u8>, from: int)
    requires
        0 <= from,
        bytes.len() <= usize::MAX,
    ensures
        header_end_from(bytes, from) is None <==> forall|i: int|
            from <= i ==> header_end_at(bytes, i) is None,
        header_end_from(bytes, from) is Some ==> exists|i: int|
            from <= i && header_end_from(bytes, from) == #[trigger] header_end_at(bytes, i) && (
            forall|j: int| from <= j < i ==> header_end_at(bytes, j) is None),
        header_end_from(bytes, from) matches Some(found) ==> from + 11 <= found.0 <= bytes.len(),
    decreases bytes.len() - from,
{
    if from + 10 > bytes.len() {
    } else if header_end_at(bytes, from) is Some {
        assert(header_end_from(bytes, from) == header_end_at(bytes, from));
    } else {
        lemma_header_end_from(bytes, from + 1);
        if header_end_from(bytes, from) is Some {
            let i = choose|i: int|
                from + 1 <= i && header_end_from(bytes, from + 1) == #[trigger] header_end_at(
                    bytes,
                    i,
                ) && (forall|j: int| from + 1 <= j < i ==> header_end_at(bytes, j) is None);
            assert(from <= i && header_end_from(bytes, from) == header_end_at(bytes, i) && (
            forall|j: int| from <= j < i ==> header_end_at(bytes, j) is None));
        }
    }
}

fn sentinel_here(bytes: &[u8], i: usize) -> (b: bool)
    requires
        i + 10 <= bytes.len(),
    ensures
        b == sentinel_at(bytes@, i as int),
{
    bytes[i] == 0x65 && bytes[i + 1] == 0x6e && bytes[i + 2] == 0x64 && bytes[i + 3] == 0x5f
        && bytes[i + 4] == 0x68 && bytes[i + 5] == 0x65 && bytes[i + 6] == 0x61 && bytes[i + 7]
        == 0x64 && bytes[i + 8] == 0x65 && bytes[i + 9] == 0x72
}

/// Finds where the header ends: behind the first `end_header` that a line
/// break follows at once. That line break, a line feed alone or after a
/// carriage return, is the one the file is split by.
pub fn find_header_end(bytes: &[u8]) -> (found: Result<(usize, Newline), PlyError>)
    ensures
        match found {
            Ok(end) => header_end(bytes@) == Some(end) && 11 <= end.0 <= bytes.len(),
            Err(e) => e == PlyError::HeaderMalformed && header_end(bytes@) is None,
        },
        found is Err <==> forall|i: int| header_end_at(bytes@, i) is None,
{
    let len: usize = bytes.len();
    proof {
        lemma_header_end_from(bytes@, 0);
        assert forall|i: int| i < 0 implies header_end_at(bytes@, i) is None by {}
    }
    if bytes.len() < 10 {
        return Err(PlyError::HeaderMalformed);
    }
    let last: usize = bytes.len() - 10;
    let mut i: usize = 0;
    while i <= last
        invariant
            last == bytes.len() - 10,
            i <= last + 1,
            header_end_from(bytes@, i as int) == header_end(bytes@),
        decreases last + 1 - i,
    {
        if sentinel_here(bytes, i) {
            let k: usize = i + 10;
            if k < bytes.len() && bytes[k] == 0x0a {
                return Ok((k + 1, Newline::Lf));
            }
            if k < bytes.len() - 1 && bytes[k] == 0x0d && bytes[k + 1] == 0x0a {
                return Ok((k + 2, Newline::CrLf));
            }
        }
        i += 1;
    }
    Err(PlyError::HeaderMalformed)
}

} // verus!
