//! A rotating writer for line-oriented streams.
//!
//! The library decides, line by line, when a time-bucketed output file is
//! finished, how the next one is named, and where a finished file must be
//! moved.  Every decision is a verified function; the driver that owns the
//! clock, the input stream and the file handles performs the returned
//! [`session::Action`]s in order.
//!
//! - [`naming`] maps a timestamp's minute bucket to a file name and path.
//! - [`session`] is the executable state machine: a [`session::Config`], a
//!   [`session::Session`] for the active file, and the actions each incoming
//!   line demands.
//! - [`model`] is the mathematical model of a whole run: the sequence of
//!   files a run produces and how each event changes it.
//! - [`laws`] proves the run's guarantees over that model: file counts per
//!   time span, the round trip from input lines to file contents, placement
//!   with and without a staging directory, immunity to failed reads, and
//!   that the emitted actions carry the model from state to state.

pub mod laws;
pub mod model;
pub mod naming;
pub mod session;
