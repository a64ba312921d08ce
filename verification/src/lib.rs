pub mod api;
pub mod audio;
pub mod chars;
pub mod cli;
pub mod language;
pub mod paths;
pub mod pipeline;
pub mod text;
pub mod vad;
