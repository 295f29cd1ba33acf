//! Intel High Definition Audio: stream formats, stream descriptor and buffer
//! descriptor register arithmetic, and the driver's error type.

pub mod error;
pub mod stream;
