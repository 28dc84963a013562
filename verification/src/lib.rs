//! Verified core of a network chainloader and crash-persistent diagnostic
//! logger for a small memory-constrained device.
//!
//! The library covers three subsystems: the loader pipeline that turns a
//! streamed 32-bit little-endian executable into a validated sequence of
//! flash/RAM write commands (`elf`, `plan`, `writer`, `stream`, `loader`),
//! the ring buffer that survives warm resets (`ring`) together with the
//! frame logger that feeds it (`logger`), and the log-drain wire protocol
//! with its client-side decoders (`drain`, `rzcobs`, `build_id`). The
//! byte-order helpers (`bytes`), the error taxonomy (`errors`), the bounded
//! command queue (`queue`) and the handoff state for loaded code
//! (`handoff`) support them.
//!
//! All network, flash and interrupt plumbing lives outside this crate; the
//! functions here compute over plain values and state exactly what they
//! return.

pub mod build_id;
pub mod bytes;
pub mod drain;
pub mod elf;
pub mod errors;
pub mod handoff;
pub mod loader;
pub mod logger;
pub mod plan;
pub mod queue;
pub mod ring;
pub mod rzcobs;
pub mod stream;
pub mod writer;
