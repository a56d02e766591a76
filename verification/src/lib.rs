//! Decoder for Gaussian-splat point clouds stored as PLY files, together with
//! a handful of elementary 32-bit bit operations.
//!
//! The decoder turns a byte buffer into one raw record per splat: the header
//! grammar, the field lookup, the record layout and every error are decided
//! here on integers and text. Each field is handed out as the integer, the bit
//! pattern or the decimal token that the file holds, ready for numeric
//! evaluation by the caller. What the caller works out goes into the render
//! buffers, which keep their lengths and the bounding box in step; channel
//! values turn into bytes and positions are ordered by their bit patterns.

pub mod ascii;
pub mod bbox;
pub mod binary;
pub mod bitops_core;
pub mod buffers;
pub mod channel;
pub mod error;
pub mod fields;
pub mod header;
pub mod number;
pub mod pixel;
pub mod raw;
pub mod scalar;
pub mod scan;
pub mod splat;
pub mod text;

pub use bitops_core::{
    hamming_distance_u32, is_bit_set_u32, powers_of_two_u32, set_bit_u32, shift_right_report_u32,
};
pub use buffers::{SplatPlyBuffersCore, SplatValues};
pub use error::{PlyError, SplatField};
pub use header::{parse_header, ParsedHeader, PlyElement, PlyProperty};
pub use pixel::rgba_to_u32;
pub use raw::{ChannelRule, RawColor, RawScalar, RawSplat};
pub use scalar::{Newline, PlyFormat, PlyScalarType};
pub use scan::find_header_end;
pub use splat::{decode_splat_ply, RawSplats};
pub use text::Span;
