//! A contract database on SQLite.
//!
//! Smart contracts keep their state in maps. The database stores the contracts, describes their
//! maps, records every change of an entry, and has a chain of simulated blocks for contracts to
//! look at. All work is done inside savepoints, which can be nested, rolled back and committed.
//!
//! What the contract language alone can say (whether a type admits a value, how a value is
//! written and read) comes in through [`values::Language`]. What SQLite does is stated in
//! [`sqlite`], over the model of the tables in [`tables`]; the rest is proved from there.

pub mod blocks;
pub mod clock;
pub mod connection;
pub mod database;
pub mod entries;
pub mod errors;
pub mod history;
pub mod laws;
pub mod outcomes;
pub mod sqlite;
pub mod tables;
pub mod values;
