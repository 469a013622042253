//! A self-hosted password vault engine: a catalog of user-defined credential
//! tables, dynamic-but-allow-listed SQL generation, selective cell encryption,
//! LIKE-pattern search, and CSV import/export.

pub mod config;
pub mod crypt;
pub mod csvio;
pub mod data;
pub mod database;
pub mod errors;
pub mod hexcode;
pub mod naming;
pub mod search;
pub mod sessions;
pub mod sql;
pub mod strutil;
