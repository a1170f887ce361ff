//! The names of the event streams.

use vstd::prelude::*;

verus! {

pub const APPLICATIONS: &'static str = "applications.changed";

pub const WINDOWS: &'static str = "windows.changed";

pub const OPERATION: &'static str = "applications.operation";

} // verus!
