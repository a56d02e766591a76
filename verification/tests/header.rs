use ply_splat::{
    find_header_end, parse_header, Newline, PlyError, PlyFormat, PlyProperty, PlyScalarType,
};

#[test]
fn header_end_after_line_feed() {
    let bytes = b"ply\nend_header\nDATA";
    assert_eq!(find_header_end(bytes), Ok((15, Newline::Lf)));
}

#[test]
fn header_end_after_carriage_return_line_feed() {
    let bytes = b"ply\r\nend_header\r\nDATA";
    assert_eq!(find_header_end(bytes), Ok((17, Newline::CrLf)));
}

#[test]
fn header_end_takes_the_first_closing_word() {
    let bytes = b"end_header end_header\nend_header\r\n";
    assert_eq!(find_header_end(bytes), Ok((22, Newline::Lf)));
}

#[test]
fn header_end_alone_is_enough() {
    assert_eq!(find_header_end(b"end_header\n"), Ok((11, Newline::Lf)));
    assert_eq!(find_header_end(b"end_header\r\n"), Ok((12, Newline::CrLf)));
}

#[test]
fn missing_sentinel_is_malformed() {
    assert_eq!(find_header_end(b""), Err(PlyError::HeaderMalformed));
    assert_eq!(find_header_end(b"ply"), Err(PlyError::HeaderMalformed));
    assert_eq!(find_header_end(b"end_heade"), Err(PlyError::HeaderMalformed));
    assert_eq!(find_header_end(b"end_header"), Err(PlyError::HeaderMalformed));
    assert_eq!(find_header_end(b"end_header\r"), Err(PlyError::HeaderMalformed));
    assert_eq!(find_header_end(b"end_header \n"), Err(PlyError::HeaderMalformed));
    assert_eq!(find_header_end(b"ply\nformat ascii 1.0\nend_header"), Err(PlyError::HeaderMalformed));
    assert_eq!(find_header_end(b"ply\nEND_HEADER\n"), Err(PlyError::HeaderMalformed));
    assert_eq!(find_header_end(b"end_header\r\r\n"), Err(PlyError::HeaderMalformed));
}

#[test]
fn truncated_buffers_are_malformed() {
    let full = b"ply\nformat ascii 1.0\nelement vertex 0\nend_header\n";
    for n in 0..full.len() {
        assert_eq!(parse_header(&full[..n]).err(), Some(PlyError::HeaderMalformed), "{}", n);
    }
    assert!(parse_header(full).is_ok());
}

fn header(text: &str) -> Result<ply_splat::ParsedHeader, PlyError> {
    parse_header(text.as_bytes())
}

#[test]
fn header_with_one_element() {
    let text = "ply\nformat binary_little_endian 1.0\ncomment made by hand\nobj_info x\nelement vertex 12\nproperty float x\nproperty uchar red\nproperty list uchar int idx\nend_header\nrest";
    let h = header(text).unwrap();
    assert_eq!(h.format, PlyFormat::BinaryLittleEndian);
    assert_eq!(h.newline, Newline::Lf);
    assert_eq!(h.data_offset, text.len() - 4);
    assert_eq!(h.elements.len(), 1);
    let el = &h.elements[0];
    assert_eq!(el.name, "vertex");
    assert_eq!(el.count, 12);
    assert_eq!(el.properties.len(), 3);
    assert!(matches!(&el.properties[0], PlyProperty::Scalar { name, ty: PlyScalarType::Float } if name == "x"));
    assert!(matches!(&el.properties[1], PlyProperty::Scalar { name, ty: PlyScalarType::UChar } if name == "red"));
    assert!(matches!(&el.properties[2], PlyProperty::List { name, count_ty: PlyScalarType::UChar, item_ty: PlyScalarType::Int } if name == "idx"));
}

#[test]
fn header_with_several_elements() {
    let h = header("ply\nformat ascii 1.0\nelement vertex 2\nproperty double x\nelement face 1\nelement edge 0\nproperty short a\nend_header\n").unwrap();
    assert_eq!(h.format, PlyFormat::Ascii);
    let names: Vec<&str> = h.elements.iter().map(|e| e.name.as_str()).collect();
    assert_eq!(names, vec!["vertex", "face", "edge"]);
    let counts: Vec<usize> = h.elements.iter().map(|e| e.count).collect();
    assert_eq!(counts, vec![2, 1, 0]);
    let sizes: Vec<usize> = h.elements.iter().map(|e| e.properties.len()).collect();
    assert_eq!(sizes, vec![1, 0, 1]);
}

#[test]
fn header_with_crlf_lines() {
    let text = "ply\r\nformat binary_big_endian 1.0\r\nelement vertex 1\r\nproperty int x\r\nend_header\r\n";
    let h = header(text).unwrap();
    assert_eq!(h.format, PlyFormat::BinaryBigEndian);
    assert_eq!(h.newline, Newline::CrLf);
    assert_eq!(h.data_offset, text.len());
    assert_eq!(h.elements[0].properties.len(), 1);
}

#[test]
fn later_format_lines_win() {
    let h = header("ply\nformat ascii 1.0\nformat binary_big_endian 1.0\nend_header\n").unwrap();
    assert_eq!(h.format, PlyFormat::BinaryBigEndian);
}

#[test]
fn format_line_needs_no_version() {
    let h = header("ply\nformat ascii\nend_header\n").unwrap();
    assert_eq!(h.format, PlyFormat::Ascii);
}

#[test]
fn lines_after_a_closing_line_are_not_read() {
    let h = header("ply\nformat ascii 1.0\nend_header \nnonsense here\nend_header\n").unwrap();
    assert_eq!(h.format, PlyFormat::Ascii);
    assert!(h.elements.is_empty());
}

#[test]
fn closing_word_inside_a_comment_ends_the_header() {
    let text = "ply\nformat ascii 1.0\ncomment end_header\nelement vertex 1\nend_header\n";
    let h = header(text).unwrap();
    assert_eq!(h.data_offset, 40);
    assert!(h.elements.is_empty());
}

#[test]
fn scalar_type_names() {
    let h = header("ply\nformat ascii 1.0\nelement e 0\nproperty char a\nproperty uchar b\nproperty short c\nproperty ushort d\nproperty int e\nproperty uint f\nproperty float g\nproperty double h\nend_header\n").unwrap();
    let types: Vec<PlyScalarType> = h.elements[0]
        .properties
        .iter()
        .map(|p| match p {
            PlyProperty::Scalar { ty, .. } => *ty,
            PlyProperty::List { item_ty, .. } => *item_ty,
        })
        .collect();
    assert_eq!(
        types,
        vec![
            PlyScalarType::Char,
            PlyScalarType::UChar,
            PlyScalarType::Short,
            PlyScalarType::UShort,
            PlyScalarType::Int,
            PlyScalarType::UInt,
            PlyScalarType::Float,
            PlyScalarType::Double
        ]
    );
}

#[test]
fn header_must_be_utf8() {
    let mut bytes = b"ply\ncomment ".to_vec();
    bytes.push(0xff);
    bytes.extend_from_slice(b"\nformat ascii 1.0\nend_header\n");
    assert_eq!(parse_header(&bytes).err(), Some(PlyError::HeaderEncoding));
}

#[test]
fn bytes_behind_the_header_need_not_be_utf8() {
    let mut bytes = b"ply\nformat binary_little_endian 1.0\nend_header\n".to_vec();
    bytes.extend_from_slice(&[0xff, 0xfe, 0x00]);
    assert!(parse_header(&bytes).is_ok());
}

#[test]
fn first_line_must_read_ply() {
    assert_eq!(header("plx\nformat ascii 1.0\nend_header\n").err(), Some(PlyError::HeaderMagic));
    assert_eq!(header("PLY\nformat ascii 1.0\nend_header\n").err(), Some(PlyError::HeaderMagic));
    assert_eq!(header("ply x\nformat ascii 1.0\nend_header\n").err(), Some(PlyError::HeaderMagic));
    assert_eq!(header("end_header\n").err(), Some(PlyError::HeaderMagic));
    assert_eq!(header("format ascii 1.0\nply\nend_header\n").err(), Some(PlyError::HeaderMagic));
    assert!(header("\n\n  ply  \nformat ascii 1.0\nend_header\n").is_ok());
}

#[test]
fn mixed_line_breaks_hide_the_first_line() {
    assert_eq!(header("ply\nformat ascii 1.0\nend_header\r\n").err(), Some(PlyError::HeaderMagic));
}

#[test]
fn unknown_format_is_refused() {
    assert_eq!(header("ply\nformat binary 1.0\nend_header\n").err(), Some(PlyError::UnsupportedFormat));
    assert_eq!(header("ply\nformat\nend_header\n").err(), Some(PlyError::UnsupportedFormat));
    assert_eq!(header("ply\nformat ASCII 1.0\nend_header\n").err(), Some(PlyError::UnsupportedFormat));
}

#[test]
fn bad_element_lines_are_refused() {
    assert_eq!(header("ply\nformat ascii 1.0\nelement\nend_header\n").err(), Some(PlyError::BadElementOrCount));
    assert_eq!(header("ply\nformat ascii 1.0\nelement vertex\nend_header\n").err(), Some(PlyError::BadElementOrCount));
    assert_eq!(header("ply\nformat ascii 1.0\nelement vertex many\nend_header\n").err(), Some(PlyError::BadElementOrCount));
    assert_eq!(header("ply\nformat ascii 1.0\nelement vertex -3\nend_header\n").err(), Some(PlyError::BadElementOrCount));
    assert_eq!(header("ply\nformat ascii 1.0\nelement vertex 1.5\nend_header\n").err(), Some(PlyError::BadElementOrCount));
    assert!(header("ply\nformat ascii 1.0\nelement vertex +3 extra\nend_header\n").is_ok());
}

#[test]
fn property_before_element_is_refused() {
    assert_eq!(header("ply\nformat ascii 1.0\nproperty float x\nend_header\n").err(), Some(PlyError::PropertyBeforeElement));
    assert_eq!(header("ply\nformat ascii 1.0\nproperty\nend_header\n").err(), Some(PlyError::PropertyBeforeElement));
}

#[test]
fn bad_property_lines_are_refused() {
    let head = "ply\nformat ascii 1.0\nelement vertex 1\n";
    let tail = "\nend_header\n";
    let err = |line: &str| header(&format!("{}{}{}", head, line, tail)).err();
    assert_eq!(err("property"), Some(PlyError::BadProperty));
    assert_eq!(err("property float"), Some(PlyError::BadProperty));
    assert_eq!(err("property list"), Some(PlyError::BadProperty));
    assert_eq!(err("property list uchar"), Some(PlyError::BadProperty));
    assert_eq!(err("property list uchar int"), Some(PlyError::BadProperty));
    assert_eq!(err("property list nope int"), Some(PlyError::BadProperty));
    assert_eq!(err("property real x"), Some(PlyError::BadPropertyType));
    assert_eq!(err("property real"), Some(PlyError::BadPropertyType));
    assert_eq!(err("property Float x"), Some(PlyError::BadPropertyType));
    assert_eq!(err("property list nope int idx"), Some(PlyError::BadPropertyType));
    assert_eq!(err("property list uchar nope idx"), Some(PlyError::BadPropertyType));
    assert_eq!(err("property float x y z"), None);
}

#[test]
fn unknown_directive_is_refused() {
    assert_eq!(header("ply\nformat ascii 1.0\nfoo bar\nend_header\n").err(), Some(PlyError::UnknownDirective));
    assert_eq!(header("ply\nformat ascii 1.0\nComment x\nend_header\n").err(), Some(PlyError::UnknownDirective));
    assert_eq!(header("ply\nply\nformat ascii 1.0\nend_header\n").err(), Some(PlyError::UnknownDirective));
}

#[test]
fn missing_format_is_refused_last() {
    assert_eq!(header("ply\nelement vertex 1\nproperty float x\nend_header\n").err(), Some(PlyError::MissingFormat));
    assert_eq!(header("ply\nend_header\n").err(), Some(PlyError::MissingFormat));
    assert_eq!(header("ply\nfoo\nend_header\n").err(), Some(PlyError::UnknownDirective));
}

#[test]
fn first_error_wins() {
    assert_eq!(header("ply\nformat nope\nproperty float x\nend_header\n").err(), Some(PlyError::UnsupportedFormat));
    assert_eq!(header("ply\nproperty float x\nformat nope\nend_header\n").err(), Some(PlyError::PropertyBeforeElement));
}

#[test]
fn names_keep_their_case_and_letters() {
    let h = header("ply\nformat ascii 1.0\nelement VerTex 1\nproperty float Größe\nend_header\n").unwrap();
    assert_eq!(h.elements[0].name, "VerTex");
    assert!(matches!(&h.elements[0].properties[0], PlyProperty::Scalar { name, .. } if name == "Größe"));
}

#[test]
fn format_names() {
    assert_eq!(PlyFormat::Ascii.as_str(), "ascii");
    assert_eq!(PlyFormat::BinaryLittleEndian.as_str(), "binary_little_endian");
    assert_eq!(PlyFormat::BinaryBigEndian.as_str(), "binary_big_endian");
    assert_eq!(PlyFormat::parse("ascii"), Some(PlyFormat::Ascii));
    assert_eq!(PlyFormat::parse("binary_little_endian"), Some(PlyFormat::BinaryLittleEndian));
    assert_eq!(PlyFormat::parse("binary_big_endian"), Some(PlyFormat::BinaryBigEndian));
    assert_eq!(PlyFormat::parse("Ascii"), None);
}

#[test]
fn scalar_type_sizes() {
    let sizes: Vec<usize> = ["char", "uchar", "short", "ushort", "int", "uint", "float", "double"]
        .iter()
        .map(|n| PlyScalarType::parse(n).unwrap().size_bytes())
        .collect();
    assert_eq!(sizes, vec![1, 1, 2, 2, 4, 4, 4, 8]);
    assert_eq!(PlyScalarType::parse("int8"), None);
    assert_eq!(PlyScalarType::parse(""), None);
}

#[test]
fn byte_colors_are_the_one_byte_types() {
    assert!(PlyScalarType::Char.is_probably_byte_color());
    assert!(PlyScalarType::UChar.is_probably_byte_color());
    for ty in [PlyScalarType::Short, PlyScalarType::UShort, PlyScalarType::Int, PlyScalarType::UInt, PlyScalarType::Float, PlyScalarType::Double] {
        assert!(!ty.is_probably_byte_color());
    }
}

#[test]
fn every_error_has_its_message() {
    assert_eq!(PlyError::HeaderMalformed.message(), "PLY: can't find end_header");
    assert_eq!(PlyError::HeaderEncoding.message(), "PLY: header is not valid utf-8");
    assert_eq!(PlyError::HeaderMagic.message(), "PLY: first line must be \"ply\"");
    assert_eq!(PlyError::UnsupportedFormat.message(), "PLY: unsupported format");
    assert_eq!(PlyError::PropertyBeforeElement.message(), "PLY: property before element");
    assert_eq!(PlyError::UnknownDirective.message(), "PLY: unknown header directive");
    assert_eq!(PlyError::MissingFormat.message(), "PLY: missing format");
    assert_eq!(PlyError::MissingVertex.message(), "PLY: element \"vertex\" not found");
    assert_eq!(PlyError::MissingField(ply_splat::SplatField::X).message(), "PLY: missing x in vertex");
    assert_eq!(PlyError::MissingField(ply_splat::SplatField::Scale2).message(), "PLY: missing scale_2 in vertex");
    assert_eq!(PlyError::MissingField(ply_splat::SplatField::Opacity).message(), "PLY: missing opacity in vertex");
    assert_eq!(PlyError::NumberFormat.message(), "PLY ASCII: failed to parse number");
    assert_eq!(PlyError::DataEncoding.message(), "PLY ASCII: data is not valid utf-8");
    assert_eq!(
        PlyError::MissingField(ply_splat::SplatField::Rotation).message(),
        "PLY: missing quaternion fields. Expected either rot_0..rot_3 (wxyz) or qx,qy,qz,qw (xyzw)"
    );
    assert_eq!(PlyError::BadElementOrCount.message(), "PLY: bad element count");
    assert_eq!(PlyError::BadProperty.message(), "PLY: bad property");
    assert_eq!(PlyError::BadPropertyType.message(), "PLY: bad property type");
    assert_eq!(
        PlyError::UnsupportedListProperty.message(),
        "PLY: vertex has list properties \u{2014} not supported by this minimal splat parser"
    );
    assert_eq!(PlyError::Truncated.message(), "PLY: data ends before the declared records");
    assert_eq!(PlyError::MissingField(ply_splat::SplatField::Y).message(), "PLY: missing y in vertex");
    assert_eq!(PlyError::MissingField(ply_splat::SplatField::Z).message(), "PLY: missing z in vertex");
    assert_eq!(PlyError::MissingField(ply_splat::SplatField::Scale0).message(), "PLY: missing scale_0 in vertex");
    assert_eq!(PlyError::MissingField(ply_splat::SplatField::Scale1).message(), "PLY: missing scale_1 in vertex");
}
