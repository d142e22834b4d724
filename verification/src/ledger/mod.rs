//! The property ledger and the value-presentation engines.

pub mod date;
pub mod format;
pub mod properties;
pub mod table;
