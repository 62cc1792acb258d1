//! Generates images at build time and embeds them, PNG-compressed and
//! base64-encoded, in an HTML fragment that documentation can splice in.
//!
//! An [`ImageFile`] collects the dimensions, the output path, the attributes of
//! the `<img>` tag and of an optional wrapper tag. [`ImageFile::generate`]
//! hands a zeroed RGB8 buffer to a pixel-filling function and returns the
//! finished fragment as text.

pub mod attributes;
pub mod codec;
pub mod error;
pub mod image;
pub mod markup;
pub mod order;
pub mod paths;
pub mod reader;

pub use error::DocimaError;
pub use image::{ImageFile, ImageSpec};
pub use paths::root_path;
