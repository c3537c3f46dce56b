//! `STEAMAPPS_INTERFACE_VERSION001`. A single method.

use vstd::prelude::*;

verus! {

pub const GET_APP_DATA: usize = 0;

} // verus!
