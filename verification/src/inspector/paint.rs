//! Fitting and painting the panel.

pub mod bars;
pub mod color;
pub mod drawer;
pub mod fit_laws;
pub mod gauge;
pub mod laws;
pub mod panel;
pub mod rows;
pub mod segments;
pub mod view_laws;
