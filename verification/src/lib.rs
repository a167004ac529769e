//! Edge-colour extraction for ambient lighting: raw capture frames, pixel
//! decoding, black-band detection, change detection and LED spectra.

pub mod capture;
pub mod common;
pub mod processor;
pub mod render;
