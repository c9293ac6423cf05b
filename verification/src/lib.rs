//! `fbm`, a local archive of Messenger conversations: everything that it decides and computes,
//! with contracts that Verus checks. Files, processes, the network and the database are reached
//! by the program around this library.
pub mod text;
pub mod number;
pub mod parts;
pub mod order;
pub mod sorted;
pub mod calendar;
pub mod time;
pub mod clock;
pub mod error;
pub mod json;
pub mod table;
pub mod paths;
pub mod browser;
pub mod flags;
pub mod cli;
pub mod arguments;
pub mod config;
pub mod crypto;
pub mod cookies;
pub mod profiles;
pub mod apart;
pub mod records;
pub mod sync;
pub mod categories;
pub mod taxonomy;
pub mod facets;
pub mod rows;
pub mod bridge;
pub mod export;
