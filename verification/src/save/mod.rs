//! Palworld save-file import: `Level.sav` in, typed owned pals out.
//!
//! [`container`] strips the outer container, [`level`] is the wire
//! boundary that finds the raw character entries, and [`import`]
//! resolves those against a pal database.

pub mod container;
pub(crate) mod guard;
pub mod import;
pub mod level;
pub mod wire;
