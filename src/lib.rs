//! Decoder for the fixed-format file header of a NITF imagery container.
//!
//! A NITF file consists of a file header followed by segments, each made of a
//! sub-header and a data field. The header is a flat run of fixed-width fields
//! followed by count-prefixed groups that give, for each segment, the length of
//! its sub-header and the length of its data. This crate slices those fields
//! out of a byte buffer without copying, decodes the segment counts and
//! lengths, and never reads past the end of the buffer.
pub mod digits;
pub mod directory;
pub mod error;
pub mod header;
pub mod laws;
pub mod layout;
pub mod slicer;

pub use digits::{num_from_str, DecimalError};
pub use directory::{build_directory, GroupLayout, SegmentDescriptor};
pub use error::ParseError;
pub use header::{header, parse_fbkgc, rgb_from_bytes, NitfHeader, RGB};
pub use layout::{fixed_field_widths, image_group_layout};
pub use slicer::{slice_field, slice_fields};
