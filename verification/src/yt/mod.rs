//! YouTube Music: requests, answers, and the streams behind a video.

pub mod innertube;
pub mod resolver;
pub mod search;

