//! Installation pipeline for a game distributed as compressed archive volumes:
//! a digest engine, a path/digest manifest store, a checksum worker model, an
//! archive-extraction queue, and the installer state machine that drives them.

pub mod checksums;
pub mod common;
pub mod extract;
pub mod installer;
pub mod manifest;
pub mod reg;
pub mod text;
