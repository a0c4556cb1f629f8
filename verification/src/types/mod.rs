//! Shared constants, register layouts and packed descriptor formats.

pub mod consts;
pub mod translate;
pub mod config;
pub mod linear;
pub mod vm;
pub mod asid;
pub mod regs;
pub mod ops;
