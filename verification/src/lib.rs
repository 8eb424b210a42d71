//! Control logic for steering the stereo balance and loudness of desktop
//! audio from a stream of head-orientation telemetry.
//!
//! The crate holds the decisions of the control loop as verified functions
//! on plain values:
//!
//! - [`frame`] decodes telemetry datagrams;
//! - [`schedule`] paces the apply step and measures throughput;
//! - [`latency`] averages apply latency over a bounded window;
//! - [`audio_graph`] finds the playback streams in the audio server's node
//!   listing and keeps count of the updates pushed to them;
//! - [`display`] lays out the rows and bars of the text dashboard;
//! - [`text`] is the character-level scanning that the others share.
//!
//! Sockets, clocks, subprocesses and floating-point arithmetic stay with
//! the caller: angles travel through the crate as bit patterns, times as
//! whole nanoseconds.

pub mod audio_graph;
pub mod display;
pub mod frame;
pub mod latency;
pub mod schedule;
pub mod text;
