//! motoreel — the integer kernels of a motor-native animation engine.
//!
//! Scenes are described as objects with motor tracks and rendered offline
//! to deterministic numbered frames. This crate holds the parts of that
//! pipeline that are exact integer and byte logic, each with a proved
//! contract:
//!
//! - [`font`]: the embedded 5 × 7 bitmap face and its lookup;
//! - [`ppm`]: the P6 header, frame buffer sizing and background fill, and
//!   the clipped pixel tiles strokes are rasterized into;
//! - [`svg`]: frame file names, the pinned SVG document header, and the
//!   SVG sink's frame buffer;
//! - [`typeset`]: faces, the face registry, and the errors that name a
//!   character a face cannot draw;
//! - track and recording errors, the key-time verdict, and span easing;
//! - scene handles and screen anchors.
pub mod font;
pub mod ppm;
mod prim;
mod scene;
pub mod svg;
mod text;
mod track;
pub mod typeset;

pub use prim::{hex, Rgb};
pub use scene::{ObjectId, ScreenAnchor};
pub use svg::SvgSink;
pub use track::{check_key_times, ease_span, RecordError, TrackError};
pub use typeset::Align;
