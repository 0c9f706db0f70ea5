//! A tempo-synchronized clock engine for musical event playback.
//!
//! Musical time is kept in fixed-point integers: tempo in thousandths of a
//! beat per minute, positions in millionths of a beat (microbeats). The
//! clock advances a monotone beat counter while playing, keeps its phase
//! within the synchronization quantum, and fans tick notifications out to
//! subscribed event streams, which answer with start/end triggers.

pub mod clock;
pub mod protocol;
pub mod streams;

