//! The rules of a shop counter: users and sessions, catalogues, products, stock and sales.

pub mod accounts;
pub mod catalogs;
pub mod clock;
pub mod dispatch;
pub mod double;
pub mod json;
pub mod laws;
pub mod lists;
pub mod products;
pub mod reply;
pub mod rules;
pub mod sales;
pub mod sessions;
pub mod settings;
pub mod shop;
pub mod stock;
pub mod store;
pub mod text;
pub mod users;
