//! Reconstruction of an executed RISC-V instruction stream from a compressed
//! hardware trace, with coverage, profiling and path-histogram consumers.
//!
//! The crate decodes the bit-packed packet wire format, replays the packets
//! against a pre-disassembled instruction index to recover every control-flow
//! event, and feeds the events to a set of independent sinks: a textual dump,
//! a JSON dump, an AFDO-style histogram, a GCDA coverage counter file, a
//! speedscope profile and a per-entry-path timing histogram.

pub mod afdo_receiver;
pub mod cfg;
pub mod decoder;
pub mod event;
pub mod gcda_receiver;
pub mod gcno;
pub mod insn;
pub mod json_receiver;
pub mod lines;
pub mod packet;
pub mod reader;
pub mod render;
pub mod speedscope_receiver;
pub mod tag;
pub mod txt_receiver;
pub mod unwind;
pub mod vpp_receiver;
