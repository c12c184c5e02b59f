//! Core of a velocity-humanising MIDI effect: audio passes through untouched
//! while the velocity of every incoming note is redrawn around its old value.
//!
//! All real numbers are handled as IEEE 754 binary32 bit patterns (`u32`), so
//! the whole crate is integer code.
pub mod binary32;
pub mod scaling;
pub mod decimal;
pub mod parameters;
pub mod event;
pub mod randomizer;
pub mod audio;
pub mod plugin;
