//! `SteamUser012`. No overloads.

use vstd::prelude::*;

verus! {

pub const GET_STEAM_ID: usize = 2;

} // verus!
