//! The audio router's plain-data side: PCM geometry and route diagnostics.

pub mod diagnostics;
pub mod format;
