//! The detailed unit builder: a focus-driven field list where Enter opens the
//! right editor for whatever is selected -- a text prompt, a choice list, a
//! toggle, the schedule sub-builder, or the free-text manual editor.

pub mod asks;
pub mod checks;
pub mod fields;
pub mod pane;
pub mod presets;
pub mod rows;
pub mod schedule;
pub mod screen;
