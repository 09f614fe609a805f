//! Footprint records: a geometry model for instrument ground-coverage
//! outlines, with a binary archive codec, a streaming vector-document
//! writer, a text dump encoder and a geospatial feature-collection
//! encoder.
//!
//! Floating-point quantities (coordinates, epoch times, opacities,
//! line widths) are carried throughout as their IEEE 754 binary64 bit
//! patterns in `u64` fields, which keeps every structural operation,
//! and the archive round trip in particular, exact.

pub mod codec;
pub mod dump;
pub mod errors;
pub mod export;
pub mod fbits;
pub mod minisvg;
pub mod numfmt;
pub mod record;
pub mod render;
pub mod time;

pub use codec::DecodeError;
pub use errors::MiscError;
pub use export::EncodingError;
pub use export::FootprintLike;
pub use minisvg::MiniSVG;
pub use record::Footprint;
pub use record::Footprints;
