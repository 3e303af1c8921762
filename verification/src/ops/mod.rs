//! The operations that the steps of a release are made of.

pub mod cargo;
pub mod diff;
pub mod index;
pub mod order;
pub mod path;
pub mod replace;
pub mod shell;
pub mod text;
pub mod version;
