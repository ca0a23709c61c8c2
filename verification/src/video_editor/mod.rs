//! The video editor: what is cut, zoomed and drawn, and how the edits are
//! driven.
pub mod drags;
pub mod inspector;
pub mod keys;
pub mod model;
pub mod preview;
pub mod state;
pub mod timeline;
pub mod undo;
pub mod zooms;
