//! Verified decoder for the FVP visual-novel engine's asset files.
//!
//! The crate covers three layers. `bin` reads and writes the outer archive
//! container that maps filenames to byte ranges. `hzc` decodes the
//! compressed, multi-frame tiled-image format found in each entry, including
//! the channel reordering that turns the stored layouts into standard ones.
//! `tachie` composites a base portrait frame with facial-expression frames.
//! `fread` and `encoding` are the shared byte-reader and the Shift-JIS text
//! conversion that filenames use.

pub mod bin;
pub mod encoding;
pub mod error;
pub mod hzc;
pub mod fread;
pub mod tachie;
