//! Copies the version of a Node package manifest into the Nth `<version>` tag of a Maven
//! build manifest.
//!
//! The text handling is line based on purpose: a value is found a fixed number of characters
//! past its field name, and a tag's inner text runs to the next `</`. Every place where such a
//! line lacks a delimiter is a reported failure.
use vstd::prelude::*;

pub mod error;
pub mod extract;
pub mod locate;
pub mod params;
pub mod replace;
pub mod sync;
pub mod text;

verus! {

/// The program's name, as the usage text shows it.
pub const APP_NAME: &'static str = "versionator";

} // verus!
