//! Text-only manipulation of file paths.
//!
//! In the Windows operating system an absolute path may start with a drive
//! letter followed by a colon, with a UNC prefix (`\\`), or with an
//! extended-length prefix (`\\?\X:`). A [`FlexPath`] is therefore based on
//! a [`FlexPathVariant`], which says whether such paths are recognised.

pub mod common;
pub mod dialect_laws;
pub mod extension;
pub mod flexible;
pub mod laws;
pub mod lemmas;
pub mod normalize;
pub mod path;
pub mod prefix;
pub mod resolved;
pub mod segments;
pub mod text;
pub mod variant;

pub use path::FlexPath;
pub use variant::FlexPathVariant;
