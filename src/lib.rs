//! Conversion of RGBA pixel buffers into LVGL image sources: format
//! selection and validation, the pixel encoders, and the C text emitter.

pub mod encode;
pub mod error;
pub mod format;
pub mod generate;
pub mod pixels;
pub mod text;
pub mod validation;
