//! Verified core of a yt-dlp download front end.
pub mod text;
pub mod paths;
pub mod models;
pub mod args;
pub mod numbers;
pub mod playlist;
pub mod json;
pub mod metadata;
pub mod state;
pub mod monitor;
pub mod binaries;
pub mod outcome;
