//! Decides which media on a Jellyfin server have been watched by everyone who
//! counts and are nobody's favorite, groups them into seasons and series, and
//! plans their deletion.

pub mod ancestry;
pub mod api;
pub mod audience;
pub mod config;
pub mod confirm;
pub mod deletion;
pub mod display;
pub mod grouping;
pub mod history;
pub mod laws;
pub mod model;
pub mod order;
pub mod paging;
pub mod picker;
pub mod report;
pub mod selection;
pub mod size;
pub mod text;
pub mod time;
