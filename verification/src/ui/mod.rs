//! What the windows show and what their buttons, sliders and keys do; drawing
//! itself is not here.

pub mod keys;
pub mod library;
pub mod main_window;
pub mod queue;
pub mod search;
pub mod settings;
pub mod winamp;
