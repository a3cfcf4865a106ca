//! What the launcher shows: its entries and how they are listed.
pub mod entry;
pub mod icon;
