//! Pixel readers for the supported raw formats.

pub mod rgb24;
pub mod yuyv;

pub use rgb24::Rgb24Reader;
pub use yuyv::YuyvReader;
