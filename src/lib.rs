//! Converts the two CSV export layouts of a bank (checking account and credit
//! card) into the six-column CSV layout read by a budgeting tool.

pub mod amount;
pub mod date;
pub mod records;
pub mod convert;
