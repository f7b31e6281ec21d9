pub mod clock;
pub mod text;
pub mod paths;
pub mod ids;
pub mod poi;
pub mod marker;
pub mod transcript;
pub mod export;
pub mod models;
pub mod edit;
pub mod resolve;
pub mod display;
pub mod subtitles;
pub mod index;
pub mod fuzzy;
pub mod import;
pub mod validate;
pub mod overlay;
pub mod playback;
pub mod render;
pub mod demo;
pub mod feedback;
pub mod pattern;
pub mod transcript_ops;
pub mod search;
pub mod project;
pub mod readback;
