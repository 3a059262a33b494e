//! Keeps two collections of world directories in step: the worlds of a local
//! project, found by glob patterns, and the worlds stored one level below the
//! game's `com.mojang` directory.
//!
//! The crate holds the decisions only. Reading directories, copying and
//! deleting are left to the caller: it hands in what it read and gets back
//! what has to be done.

pub mod cli;
pub mod com_mojang;
pub mod config;
pub mod engine;
pub mod error;
pub mod listing;
pub mod path;
pub mod text;
pub mod theorems;
pub mod transfer;
pub mod world;
