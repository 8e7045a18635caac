//! Self-extracting package container: the on-disk record formats, the
//! payload container, the runner's bootstrap decisions and the packer's
//! option handling, each stated and proved with Verus.

pub mod format;
pub mod digest;
pub mod codec;
pub mod text;
pub mod table;
pub mod container;
pub mod locate;
pub mod policy;
pub mod arguments;
pub mod pack;
pub mod options;
