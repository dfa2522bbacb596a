//! Interlace's core: the remux project model, its rendering into an ffmpeg
//! argument vector, single-stream extraction, container compatibility rules,
//! ffprobe ingest, command-line tokenizing and the editing session.

pub mod text;
pub mod model;
pub mod path;
pub mod args;
pub mod extract;
pub mod validate;
pub mod probe;
pub mod run;
pub mod session;
pub mod display;
