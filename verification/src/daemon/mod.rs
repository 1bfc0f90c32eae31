//! The daemon: its tables, the operations on them, and the request handling.

pub mod checking;
pub mod journal;
pub mod keeping;
pub mod laws;
pub mod laws_listing;
pub mod laws_reading;
pub mod laws_refusals;
pub mod laws_rows;
pub mod laws_schedule;
pub mod laws_sending;
pub mod laws_upkeep;
pub mod order;
pub mod posting;
pub mod rows;
pub mod server;
pub mod store;
pub mod tables;
