//! `SteamUtils005`. No overloads.

use vstd::prelude::*;

verus! {

pub const GET_APP_ID: usize = 9;

} // verus!
