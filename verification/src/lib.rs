//! Message transcoding and delivery rules for a relay between a rich chat
//! platform and a line-oriented, byte-limited chat protocol.

pub mod text;
pub mod lines;
pub mod chunker;
pub mod badge;
pub mod roster;
pub mod cache;
pub mod pattern;
pub mod markup;
pub mod rich_to_line;
pub mod line_to_rich;
pub mod relay;
pub mod bridge;
pub mod webhook;
