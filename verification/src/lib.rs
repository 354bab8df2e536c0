//! Serializer for the Glyph Bitmap Distribution Format (BDF).
//!
//! The library renders a bitmap-font model into BDF text, one line per
//! record.  `entry` holds the record vocabulary, `writer` the stream
//! encoder and the whole-font serializer, `font` the read-only font
//! model the serializer walks, and `text` the decimal and hexadecimal
//! digit rendering the line formats are built from.

pub mod entry;
pub mod font;
pub mod text;
pub mod writer;
