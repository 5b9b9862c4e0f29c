//! Xp, levels and rankings of the members of a guild.

pub mod constants;
pub mod xp_func;
pub mod models;
pub mod ranking;
pub mod avatar;
pub mod cards;
