pub mod builder;
pub mod discovery;
pub mod error;
pub mod options;
pub mod progress;
pub mod cache;
pub mod temp;
pub mod ffprobe;
pub mod verify;
pub mod runner;
