//! Discovery, ordering and rendering of Hyprland configuration entries.

pub mod alias;
pub mod ansi;
pub mod cli;
pub mod comment;
pub mod edit;
pub mod highlight;
pub mod model;
pub mod order;
pub mod picker;
pub mod scan;
pub mod text;
pub mod ui;
