//! The logic of a small YouTube Music player: searching, choosing a stream,
//! running the queue, and everything the window has to decide before it draws.
//!
//! What reads the network, the disk, the sound card or the screen lives outside
//! this crate and hands it plain values.

pub mod app;
pub mod audio;
pub mod bits;
pub mod eq;
pub mod json;
pub mod layout;
pub mod login;
pub mod model;
pub mod mpris;
pub mod player;
pub mod settings;
pub mod text;
pub mod ui;
pub mod vis;
pub mod winamp;
pub mod yt;

