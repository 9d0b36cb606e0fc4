//! An inventory of product records: exact decimal prices, validated entry,
//! removal by 1-based position, and validation of records read back from storage.

pub mod amount;
pub mod inventory;
pub mod numeral;
pub mod product;
