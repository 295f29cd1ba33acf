//! The `disk:` scheme of the AHCI driver: paths, listings and the handle table.

pub mod path;
pub mod scheme;
