//! Bookkeeping of the script settings stack: which global is the entry
//! global and which is the incumbent global at any moment.

pub mod guards;
pub mod laws;
pub mod stack;

pub use guards::{AutoEntryScript, AutoIncumbentScript};
pub use stack::{entry_global, incumbent_global, trace, GlobalId, SettingsStack, StackEntry, StackEntryKind};
