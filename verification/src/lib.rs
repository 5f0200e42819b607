//! Generation of register-access code from a hardware description tree.
//!
//! The library walks an immutable description of devices, register blocks,
//! registers and bit-fields and derives, for every register and nested block,
//! its effective address, array bounds and permitted operations.  It produces
//! structured render plans; turning a plan into source text is a thin
//! formatting step that callers perform.  It also provides the runtime
//! register-access abstraction the generated code delegates to:
//! capability-gated read/write/modify plus bit-field get/set views.

use vstd::prelude::*;

pub mod block;
pub mod common;
pub mod device;
pub mod ir;
pub mod layout;
pub mod order;
mod sealed;

verus! {

/// The failures of the library.
///
/// Generation-time errors (`ReferenceError`, `DuplicateError`, `BitSizeError`)
/// abort a whole generation run: there is no partial output.  `RangeError`
/// belongs to the access layer: an arrayed accessor invoked with an
/// out-of-bounds index, or a bit-field conversion that cannot fit.
#[derive(Debug, PartialEq, Eq, Clone)]
pub enum Error {
    /// A fieldset or block path does not resolve in the description tree.
    ReferenceError { path: String },
    /// Two interrupts share a numeric vector value.
    DuplicateError { value: u32 },
    /// A register declares a bit width outside {8, 16, 32, 64}.
    BitSizeError { bit_size: u32 },
    /// An index reached past the bound it was checked against.
    RangeError { index: u32, len: u32 },
}

} // verus!
