//! Streaming short-time Fourier analysis: the buffering discipline that turns
//! an unbounded stream of audio samples into fixed-size, overlapping analysis
//! frames, the bounded hand-off of spectral columns from the capture side to
//! the rendering side, and the geometry that turns a column into line segments.
//!
//! Samples are kept generic: the library only moves them, it never does
//! arithmetic on them.

pub mod printer;
pub mod queue;
pub mod render;
pub mod stream;
pub mod window;

pub use printer::Printer;
pub use queue::ColumnQueue;
pub use render::{column_polyline, Segment};
pub use stream::{ConfigError, StreamingStft};
pub use window::SampleWindow;
