//! Interrupt lines as a file-like scheme.
//!
//! A consumer opens an interrupt line by its number, reads to wait until the
//! line next fires, and writes the counter value it saw to acknowledge that
//! occurrence. The scheme takes every decision of that protocol; locking the
//! counter table, suspending a waiting reader and acknowledging at the
//! interrupt controller are left to the caller, which is told what to do.

pub mod error;
pub mod path;
pub mod scheme;
pub mod table;
pub mod word;

pub use crate::error::Error;
pub use crate::scheme::IrqScheme;
pub use crate::scheme::PendingRead;
pub use crate::scheme::ReadStep;
pub use crate::scheme::WriteOutcome;
pub use crate::table::CounterTable;
pub use crate::word::ByteOrder;
