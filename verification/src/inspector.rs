//! The inspector: a docked developer panel.

pub mod click_laws;
pub mod laws;
pub mod log;
pub mod log_laws;
pub mod model;
pub mod paint;
pub mod panel;
pub mod tree_laws;
