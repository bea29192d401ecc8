//! Terminal output: colors, number and time formatting, progress lines.

pub mod color;
pub mod fmt;
pub mod progress;
