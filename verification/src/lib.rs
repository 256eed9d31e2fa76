//! Backend-neutral semantic presentation vocabulary, stream provenance and
//! projection algebra for terminal user interfaces.

pub mod style;
pub mod unicode;
pub mod stream;
pub mod commit;
pub mod tracks;
pub mod projection;
pub mod view;
pub mod scene;
pub mod physical;
pub mod decoration;
pub mod text_compile;
pub mod scrollback;
pub mod theme;
pub mod wrap;
pub mod chars;
pub mod paste;
pub mod smoother;
pub mod panel;
pub mod active;
pub mod input_wrap;
pub mod hosted;
pub mod cursor;
pub mod text_flow;
pub mod backend;
pub mod activity;
pub mod stream_compile;
pub mod paint_tree;
