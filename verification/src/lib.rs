//! The verified core of the WarehouseInc stock system: storage bin
//! locations, user credentials and logins, menu choices and typed numbers.
//! Terminal input and output and the SQLite store stand around it, outside
//! this library.

pub mod menu;
pub mod numbers;
pub mod pattern;
pub mod text;
pub mod user;
pub mod warehouse;
