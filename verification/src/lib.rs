//! A fixed-capacity, double-ended ring buffer for elements of a
//! freely-copyable value type.
//!
//! The buffer holds at most `S` elements, supports constant-time insertion
//! and removal at either end, constant-time indexed access, and export of
//! its contents as a contiguous, logically-ordered view.  A *checked* API
//! tier reports capacity and emptiness violations as explicit outcomes; a
//! *trusted-caller* tier skips those checks and instead demands the
//! precondition from the caller, where it is enforced by verification.

pub mod buffer;
pub mod laws;
mod modular;

pub use buffer::CircBuf;
