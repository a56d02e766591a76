use vstd::prelude::*;
use vstd::string::*;

verus! {

/// A field that every splat record must provide.
#[derive(Debug, Clone, Copy, PartialEq, Eq, Structural)]
pub enum SplatField {
    X,
    Y,
    Z,
    Scale0,
    Scale1,
    Scale2,
    Rotation,
    Opacity,
}

/// Why a buffer could not be decoded. Every error ends the call: nothing is
/// returned besides it.
#[derive(Debug, Clone, Copy, PartialEq, Eq, Structural)]
pub enum PlyError {
    /// No `end_header` followed by a line break.
    HeaderMalformed,
    /// The header is not valid UTF-8.
    HeaderEncoding,
    /// The first line is not `ply`.
    HeaderMagic,
    /// A `format` line names an unknown encoding.
    UnsupportedFormat,
    /// An `element` line lacks its name or count, or the count is no number.
    BadElementOrCount,
    /// A `property` line stands before any `element` line.
    PropertyBeforeElement,
    /// A `property` line lacks a type or a name.
    BadProperty,
    /// A `property` line names an unknown scalar type.
    BadPropertyType,
    /// A header line starts with an unknown word.
    UnknownDirective,
    /// The header holds no `format` line.
    MissingFormat,
    /// The header declares no `vertex` element.
    MissingVertex,
    /// The vertex element declares a list property.
    UnsupportedListProperty,
    /// The vertex element lacks a required field.
    MissingField(SplatField),
    /// The records of an ASCII file are not valid UTF-8.
    DataEncoding,
    /// The data ends before the declared records do.
    Truncated,
    /// A column of an ASCII record is not a decimal number.
    NumberFormat,
}

impl PlyError {
    /// The text of the message that describes this error.
    pub open spec fn message_text(self) -> Seq<char> {
        match self {
            PlyError::HeaderMalformed => "PLY: can't find end_header"@,
            PlyError::HeaderEncoding => "PLY: header is not valid utf-8"@,
            PlyError::HeaderMagic => "PLY: first line must be \"ply\""@,
            PlyError::UnsupportedFormat => "PLY: unsupported format"@,
            PlyError::BadElementOrCount => "PLY: bad element count"@,
            PlyError::PropertyBeforeElement => "PLY: property before element"@,
            PlyError::BadProperty => "PLY: bad property"@,
            PlyError::BadPropertyType => "PLY: bad property type"@,
            PlyError::UnknownDirective => "PLY: unknown header directive"@,
            PlyError::MissingFormat => "PLY: missing format"@,
            PlyError::MissingVertex => "PLY: element \"vertex\" not found"@,
            PlyError::UnsupportedListProperty => "PLY: vertex has list properties — not supported by this minimal splat parser"@,
            PlyError::MissingField(SplatField::X) => "PLY: missing x in vertex"@,
            PlyError::MissingField(SplatField::Y) => "PLY: missing y in vertex"@,
            PlyError::MissingField(SplatField::Z) => "PLY: missing z in vertex"@,
            PlyError::MissingField(SplatField::Scale0) => "PLY: missing scale_0 in vertex"@,
            PlyError::MissingField(SplatField::Scale1) => "PLY: missing scale_1 in vertex"@,
            PlyError::MissingField(SplatField::Scale2) => "PLY: missing scale_2 in vertex"@,
            PlyError::MissingField(SplatField::Rotation) => "PLY: missing quaternion fields. Expected either rot_0..rot_3 (wxyz) or qx,qy,qz,qw (xyzw)"@,
            PlyError::MissingField(SplatField::Opacity) => "PLY: missing opacity in vertex"@,
            PlyError::DataEncoding => "PLY ASCII: data is not valid utf-8"@,
            PlyError::Truncated => "PLY: data ends before the declared records"@,
            PlyError::NumberFormat => "PLY ASCII: failed to parse number"@,
        }
    }

    /// The message that describes this error, for display or logging.
    pub fn message(&self) -> (text: String)
        ensures
            text@ == self.message_text(),
    {
        let text: &str = match self {
            PlyError::HeaderMalformed => "PLY: can't find end_header",
            PlyError::HeaderEncoding => "PLY: header is not valid utf-8",
            PlyError::HeaderMagic => "PLY: first line must be \"ply\"",
            PlyError::UnsupportedFormat => "PLY: unsupported format",
            PlyError::BadElementOrCount => "PLY: bad element count",
            PlyError::PropertyBeforeElement => "PLY: property before element",
            PlyError::BadProperty => "PLY: bad property",
            PlyError::BadPropertyType => "PLY: bad property type",
            PlyError::UnknownDirective => "PLY: unknown header directive",
            PlyError::MissingFormat => "PLY: missing format",
            PlyError::MissingVertex => "PLY: element \"vertex\" not found",
            PlyError::UnsupportedListProperty => "PLY: vertex has list properties — not supported by this minimal splat parser",
            PlyError::MissingField(SplatField::X) => "PLY: missing x in vertex",
            PlyError::MissingField(SplatField::Y) => "PLY: missing y in vertex",
            PlyError::MissingField(SplatField::Z) => "PLY: missing z in vertex",
            PlyError::MissingField(SplatField::Scale0) => "PLY: missing scale_0 in vertex",
            PlyError::MissingField(SplatField::Scale1) => "PLY: missing scale_1 in vertex",
            PlyError::MissingField(SplatField::Scale2) => "PLY: missing scale_2 in vertex",
            PlyError::MissingField(SplatField::Rotation) => "PLY: missing quaternion fields. Expected either rot_0..rot_3 (wxyz) or qx,qy,qz,qw (xyzw)",
            PlyError::MissingField(SplatField::Opacity) => "PLY: missing opacity in vertex",
            PlyError::DataEncoding => "PLY ASCII: data is not valid utf-8",
            PlyError::Truncated => "PLY: data ends before the declared records",
            PlyError::NumberFormat => "PLY ASCII: failed to parse number",
        };
        text.to_owned()
    }
}

} // verus!
