//! The rows that the inspector's tabs show.

pub mod elements;
pub mod events_tab;
pub mod format;
pub mod format_laws;
pub mod network_laws;
pub mod logic_laws;
pub mod events_laws;
pub mod element_laws;
pub mod row_laws;
pub mod style_laws;
pub mod laws;
pub mod logic_tab;
pub mod network_tab;
pub mod sources;
pub mod styles;
pub mod tabs;
pub mod types;
