//! Verified core of a process and VRAM monitor: the sample model, the
//! downsampling ring buffers, target bookkeeping, the `/proc` text
//! parsers, process matching and the pure parts of the tool protocol.

pub mod buffer;
pub mod dashboard;
pub mod export;
pub mod gpu;
pub mod laws;
pub mod laws_more;
pub mod laws_rules;
pub mod maps;
pub mod matching;
pub mod model;
pub mod procfs;
pub mod sampling;
pub mod server;
pub mod targets;
pub mod text;
pub mod tools;

pub use model::{AddMode, Sample, Target, VramBoardSample, VramProcessSample, WindowConfig};
pub use targets::PidStatus;
