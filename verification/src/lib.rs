//! Color-space conversion and gamut-mapping engine for bridging a lighting
//! hub's CIE 1931 chromaticity telemetry to fixtures that speak RGB/HSV.
//!
//! Chromaticity coordinates are held in fixed point (`COORD_SCALE` units per
//! 1.0), so every geometric and colorimetric step is exact integer or rational
//! arithmetic with a precise contract.  The HTTP clients that feed this engine
//! live outside the library and hand it plain values.

pub mod color;
pub mod gamma;
pub mod gamut;
pub mod hue;
pub mod nanoleaf;
pub mod palette;
pub mod room;
