//! Record tags and arc flag bits of the coverage-notes format.

use vstd::prelude::*;

verus! {

/// The tag for the end of file.
pub const EOF_TAG: u32 = 0;

/// The tag for a function announcement record.
pub const FUNCTION_TAG: u32 = 0x01000000;

/// The tag for a basic-block count record.
pub const BLOCKS_TAG: u32 = 0x01410000;

/// The tag for an arcs record.
pub const ARCS_TAG: u32 = 0x01430000;

/// The tag for a lines record.
pub const LINES_TAG: u32 = 0x01450000;

/// The tag for an arc-counts record.
pub const COUNTER_BASE_TAG: u32 = 0x01a10000;

/// The tag for an object-summary record.
pub const OBJECT_SUMMARY_TAG: u32 = 0xa1000000;

/// The tag for a program-summary record, deprecated and skipped when
/// present.
pub const PROGRAM_SUMMARY_TAG: u32 = 0xa3000000;

/// Arc flag: on the spanning tree, so not instrumented.
pub const FLAG_TREE: u32 = 0x1;

/// Arc flag: fake.
pub const FLAG_FAKE: u32 = 0x2;

/// Arc flag: fall-through.
pub const FLAG_FALL: u32 = 0x4;

} // verus!
