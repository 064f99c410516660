pub mod codec;
pub mod decimal;
pub mod error;
pub mod ffmpeg;
pub mod number;
pub mod preview;
pub mod sidecar;
pub mod text;
