//! Builds installer archives for a program described by a manifest, and adds
//! `/usr/bin` symlinks for its executables to an already built Debian package.

pub mod appimage;
pub mod archive;
pub mod bytes;
pub mod cli;
pub mod conf;
pub mod deb;
pub mod error;
pub mod links;
pub mod outside;
pub mod patch;
pub mod payload;
pub mod stream;
