//! A time-windowed buffer of multi-channel sensor samples, kept ready for
//! plotting, and the decoding of the hex-encoded frames that carry them.
pub mod measurements;
pub mod frame;
