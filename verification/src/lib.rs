//! The verified core of notcron, a builder and manager for systemd timers,
//! services and mounts.

pub mod calendar;
pub mod civil;
pub mod cli;
pub mod complete;
pub mod cron;
pub mod export;
pub mod fieldhelp;
pub mod linger;
pub mod number;
pub mod order;
pub mod parts;
pub mod paths;
pub mod strmap;
pub mod systemd;
pub mod templates;
pub mod text;
pub mod trash;
pub mod ui;
pub mod unit;
pub mod validate;
