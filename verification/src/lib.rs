//! Partition-table to flash-table codec for SiFli microcontrollers.
//!
//! A partition table is the editable, logical description of a device's
//! memory layout. A flash table is the fixed-layout binary structure that the
//! boot ROM reads at power-on. This crate reads the first from text, checks
//! it, and produces the second:
//!
//! text → [`ptab::parse`] → [`ptab::rules::PartitionTable`] →
//! [`ftab::FlashTable::apply`] → [`ftab::PopulatedTable::to_bytes`] → bytes.
//!
//! [`codec::convert`] goes the whole way in one call.

pub mod codec;
pub mod config;
pub mod ftab;
pub mod ptab;
pub mod startup;
