//! Verified core of a batch image and PDF processor.
use vstd::prelude::*;

pub mod text;
pub mod paths;
pub mod settings;
pub mod formats;
pub mod sources;
pub mod pdf;
pub mod work;
pub mod order;
pub mod preview;
pub mod progress;
pub mod encode;
pub mod migrate;

verus! {
} // verus!
