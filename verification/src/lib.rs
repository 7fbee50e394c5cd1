//! An interactive launcher for the scripts that `package.json` manifests
//! declare: the rules by which manifests are located, scripts are read out of
//! them, menu labels are written and the chosen script is run.
//!
//! Nothing here touches the file system, the terminal or a child process.
//! The caller lists directories, reads files, shows the menu and spawns the
//! shell; this crate decides what is to be listed, read, shown and spawned.

pub mod command;
pub mod course;
pub mod json;
pub mod launcher;
pub mod locator;
pub mod manifest;
pub mod path;
pub mod registry;
pub mod style;
pub mod tree;
