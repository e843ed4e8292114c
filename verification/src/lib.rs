//! Screen-mirroring companion logic: tool and capture paths, the child
//! process environment, adb device discovery, the application state and
//! its transitions, and the window icons.
use vstd::prelude::*;

pub mod devices;
pub mod env;
pub mod icon;
pub mod paths;
pub mod state;
pub mod text;

verus! {

} // verus!
