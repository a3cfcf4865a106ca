//! The verified core of a keyboard-driven application launcher.
use vstd::prelude::*;

pub mod app_info;
pub mod hotkeys;
pub mod launcher;
pub mod preferences;
pub mod providers;
pub mod text;
pub mod ui;

verus! {

} // verus!
