//! Render-side logic of the Mizu hypermedia browser: bidi sanitising, the
//! browser chrome, the history sidebar, the inspector panel, image decoding
//! rules and the accessibility tree.
//!
//! Everything here computes; windows, GPU scenes, fonts and the clipboard
//! belong to the embedding application.

pub mod accessibility;
pub mod bidi;
pub mod chrome;
pub mod clock;
pub mod dom;
pub mod double;
pub mod embedded_fonts;
pub mod fit;
pub mod history;
pub mod history_sidebar;
pub mod hit_test;
pub mod image_codec;
pub mod inspector;
pub mod logic;
pub mod order;
pub mod px;
pub mod scene;
pub mod style;
pub mod svg;
pub mod text;
pub mod view_laws;
pub mod webp;
