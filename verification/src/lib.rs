//! Hardware-aware planning for local inference engines: a verified GGUF
//! header reader, execution-profile policy and host-description parsing.
pub mod gguf;
pub mod text;
pub mod policy;
pub mod backend;
pub mod display;
pub mod model;
pub mod probe;
pub mod gguf_encoding;
pub mod telemetry;
