use vstd::prelude::*;
use crate::text::same_text;
use vstd::string::*;

verus! {

/// The three encodings in which the records of a file may be written.
#[derive(Debug, Clone, Copy, PartialEq, Eq, Structural)]
pub enum PlyFormat {
    Ascii,
    BinaryLittleEndian,
    BinaryBigEndian,
}

impl PlyFormat {
    /// The word that names this encoding on a `format` line.
    pub open spec fn name(self) -> Seq<char> {
        match self {
            PlyFormat::Ascii => "ascii"@,
            PlyFormat::BinaryLittleEndian => "binary_little_endian"@,
            PlyFormat::BinaryBigEndian => "binary_big_endian"@,
        }
    }

    /// The encoding that `word` names, if any.
    pub open spec fn named(word: Seq<char>) -> Option<PlyFormat> {
        if word == "ascii"@ {
            Some(PlyFormat::Ascii)
        } else if word == "binary_little_endian"@ {
            Some(PlyFormat::BinaryLittleEndian)
        } else if word == "binary_big_endian"@ {
            Some(PlyFormat::BinaryBigEndian)
        } else {
            None
        }
    }

    /// Reads the name of an encoding.
    pub fn parse(s: &str) -> (format: Option<Self>)
        ensures
            format == Self::named(s@),
    {
        if same_text(s, "ascii") {
            Some(Self::Ascii)
        } else if same_text(s, "binary_little_endian") {
            Some(Self::BinaryLittleEndian)
        } else if same_text(s, "binary_big_endian") {
            Some(Self::BinaryBigEndian)
        } else {
            None
        }
    }

    /// The word that names this encoding on a `format` line.
    pub fn as_str(&self) -> (name: &'static str)
        ensures
            name@ == self.name(),
    {
        match self {
            PlyFormat::Ascii => "ascii",
            PlyFormat::BinaryLittleEndian => "binary_little_endian",
            PlyFormat::BinaryBigEndian => "binary_big_endian",
        }
    }
}

/// The line break that closes the header; it also separates the header's
/// lines and the records of an ASCII file.
#[derive(Debug, Clone, Copy, PartialEq, Eq, Structural)]
pub enum Newline {
    Lf,
    CrLf,
}

impl Newline {
    /// The number of characters in the line break.
    pub open spec fn width(self) -> int {
        match self {
            Newline::Lf => 1,
            Newline::CrLf => 2,
        }
    }
}

/// The primitive types that a property can be declared with.
#[derive(Debug, Clone, Copy, PartialEq, Eq, Structural)]
pub enum PlyScalarType {
    Char,
    UChar,
    Short,
    UShort,
    Int,
    UInt,
    Float,
    Double,
}

impl PlyScalarType {
    /// The type that `word` names, if any.
    pub open spec fn named(word: Seq<char>) -> Option<PlyScalarType> {
        if word == "char"@ {
            Some(PlyScalarType::Char)
        } else if word == "uchar"@ {
            Some(PlyScalarType::UChar)
        } else if word == "short"@ {
            Some(PlyScalarType::Short)
        } else if word == "ushort"@ {
            Some(PlyScalarType::UShort)
        } else if word == "int"@ {
            Some(PlyScalarType::Int)
        } else if word == "uint"@ {
            Some(PlyScalarType::UInt)
        } else if word == "float"@ {
            Some(PlyScalarType::Float)
        } else if word == "double"@ {
            Some(PlyScalarType::Double)
        } else {
            None
        }
    }

    /// The number of bytes that a value of this type takes in a binary record.
    pub open spec fn width(self) -> nat {
        match self {
            PlyScalarType::Char | PlyScalarType::UChar => 1,
            PlyScalarType::Short | PlyScalarType::UShort => 2,
            PlyScalarType::Int | PlyScalarType::UInt | PlyScalarType::Float => 4,
            PlyScalarType::Double => 8,
        }
    }

    /// Whether a colour channel of this type holds a byte from 0 to 255 rather
    /// than a fraction of one.
    pub open spec fn byte_sized(self) -> bool {
        self is Char || self is UChar
    }

    /// Reads the name of a scalar type.
    pub fn parse(s: &str) -> (ty: Option<Self>)
        ensures
            ty == Self::named(s@),
    {
        if same_text(s, "char") {
            Some(Self::Char)
        } else if same_text(s, "uchar") {
            Some(Self::UChar)
        } else if same_text(s, "short") {
            Some(Self::Short)
        } else if same_text(s, "ushort") {
            Some(Self::UShort)
        } else if same_text(s, "int") {
            Some(Self::Int)
        } else if same_text(s, "uint") {
            Some(Self::UInt)
        } else if same_text(s, "float") {
            Some(Self::Float)
        } else if same_text(s, "double") {
            Some(Self::Double)
        } else {
            None
        }
    }

    /// The number of bytes that a value of this type takes in a binary
    /// record.
    pub fn size_bytes(&self) -> (n: usize)
        ensures
            n == self.width(),
    {
        match self {
            PlyScalarType::Char => 1,
            PlyScalarType::UChar => 1,
            PlyScalarType::Short => 2,
            PlyScalarType::UShort => 2,
            PlyScalarType::Int => 4,
            PlyScalarType::UInt => 4,
            PlyScalarType::Float => 4,
            PlyScalarType::Double => 8,
        }
    }

    /// Tells whether a colour channel of this type holds a byte from 0 to 255
    /// rather than a fraction of one.
    pub fn is_probably_byte_color(&self) -> (b: bool)
        ensures
            b == self.byte_sized(),
    {
        matches!(self, PlyScalarType::Char | PlyScalarType::UChar)
    }
}

} // verus!
