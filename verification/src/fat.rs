//! A small FAT16-style file store on a disk of 512-byte sectors.
//!
//! The boot sector gives the layout; one FAT sector records which clusters are taken; a
//! directory is one sector of sixteen 32-byte entries. [`layout`], [`table`] and [`dir`]
//! hold what is computed from the contents of one sector; [`ops`] holds the operations of the
//! file store as step functions that say which sector to read or write next.

pub mod layout;
pub mod table;
pub mod dir;
pub mod path;
pub mod ops;
pub mod disk;
