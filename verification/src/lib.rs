//! Core logic of the brztek Discord bot: xp and level arithmetic, rankings,
//! the roulette game, URL cleaning with the ClearURLs rules, YouTube
//! subscriptions, and the texts that the bot composes. Input and output
//! (Discord, the database, HTTP) stay outside this crate; what it reads of
//! the outside crates (regular expressions, URLs, random numbers, the time,
//! PNG encoding) goes through a few trusted wrappers.

pub mod admin;
pub mod clearurl;
pub mod clock;
pub mod config;
pub mod database;
pub mod db;
pub mod format;
pub mod levels;
pub mod members;
pub mod mention_roles;
pub mod misc;
pub mod picture;
mod random;
pub mod roulette;
pub mod sorting;
pub mod tally;
pub mod text;
pub mod timeouts;
pub mod youtube;
