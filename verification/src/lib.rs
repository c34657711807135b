//! One-shot desktop capture, as a verified plan.
//!
//! The crate decides *what* has to happen to turn a region of the desktop into
//! an image file, and in which order every operating-system resource is taken
//! and given back. It performs no system call itself: a driver asks the
//! [`pipeline::Pipeline`] for the next [`pipeline::Action`], carries it out, and
//! reports the [`pipeline::Event`] that came back.

pub mod cli;
pub mod encoder;
pub mod error;
pub mod filename;
pub mod guard;
pub mod ledger;
pub mod pipeline;
pub mod region;
pub mod text;
