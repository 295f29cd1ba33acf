//! Verified logic of two Redox OS drivers: the stream-format and register
//! arithmetic of the Intel High Definition Audio driver (`hda`), and the
//! handle table behind the AHCI disk scheme (`ahci`).

pub mod ahci;
pub mod hda;
mod sys;
