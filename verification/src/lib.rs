//! Per-glyph Unicode metadata for font tooling: a typed record model, a
//! decoder for the tab-separated glyph report format, and a reduction that
//! collects the distinct code points a font encodes, flagging duplicates.

pub mod decode;
pub mod hex;
pub mod reduce;
pub mod text;
pub mod types;

pub use decode::parse_tsv;
pub use decode::TsvError;
pub use reduce::to_unique_codepoints;
pub use types::GlyphRef;
pub use types::UnicodeData;
