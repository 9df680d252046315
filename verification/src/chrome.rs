//! The browser chrome: tab strip, navigation buttons and URL bar.

pub mod geometry;
pub mod keys;
pub mod key_laws;
pub mod laws;
pub mod zone_laws;
pub mod paint;
pub mod paint_laws;
pub mod state;
