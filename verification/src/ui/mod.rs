//! What the full-screen interface shows and how it answers keys.

pub mod builder;
pub mod dialogs;
pub mod diff;
pub mod editor;
pub mod health;
pub mod list;
pub mod logtail;
pub mod optmenu;
pub mod paint;
pub mod picker;
pub mod reading;
pub mod steps;
pub mod table;
pub mod telling;
pub mod term;
pub mod trashview;
pub mod wrap;
