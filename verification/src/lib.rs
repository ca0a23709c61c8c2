//! ashot: capture, annotate and edit screenshots and recordings.
pub mod audio;
pub mod binary;
pub mod captions;
pub mod capture;
pub mod cli;
pub mod clipboard;
pub mod color;
pub mod draw;
pub mod editor;
pub mod error;
pub mod geometry;
pub mod json;
pub mod launcher;
pub mod math;
pub mod micmon;
pub mod overlay;
pub mod pixmap;
pub mod player;
pub mod record;
pub mod recorder;
pub mod render;
pub mod spec;
pub mod srt;
pub mod text;
pub mod theme;
pub mod thumbnails;
pub mod timeline_media;
pub mod tray;
pub mod video;
pub mod video_editor;
