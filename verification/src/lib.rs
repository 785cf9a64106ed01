//! A visit counter: every request for a key yields the next integer for that
//! key, drawn as a picture.
//!
//! The counts live in memory ([`cache`]) in front of a durable table
//! ([`db_adpater`], [`memory`]), are written back as a whole on a timer and
//! once more at shutdown ([`scheduler`]), and what the store promises is
//! stated over a plain model of the table ([`table`]). A count is drawn
//! ([`banner`]) in a theme whose picture files are named by digit
//! ([`assets`]), as the request and the settings ask ([`handler`], [`cli`]).

pub mod assets;
pub mod banner;
pub mod cache;
pub mod cli;
pub mod db_adpater;
pub mod handler;
pub mod memory;
pub mod scheduler;
pub mod table;
pub mod utils;
