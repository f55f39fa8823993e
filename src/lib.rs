//! Stateless text primitives: pattern extraction, keyword detection,
//! base64 encoding and a small markdown-to-HTML conversion.

pub mod codec;
pub mod keywords;
pub mod text;
pub mod pattern;
pub mod markdown;
