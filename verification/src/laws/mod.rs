//! What holds of the library as a whole.

pub mod access;
pub mod entries;
pub mod goods;
pub mod inventory;
pub mod movements;
pub mod names;
pub mod numbers;
pub mod people;
pub mod preferences;
pub mod reading;
pub mod records;
pub mod scope;
pub mod showing;
pub mod signing;
pub mod tax;
pub mod tickets;
pub mod words;
