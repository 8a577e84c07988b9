use vstd::prelude::*;

pub mod config;
pub mod escape;
pub mod events;
pub mod rewrite;
mod scan;
pub mod spans;

pub use config::file_already_listed;
pub use escape::escape_html_bytes;
pub use events::{FenceEvent, FenceKind};
pub use rewrite::{add_wavedrom, Wavedrom};
