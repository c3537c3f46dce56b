//! `STEAMAPPS_INTERFACE_VERSION008`. No overloads.

use vstd::prelude::*;

verus! {

pub const IS_SUBSCRIBED: usize = 0;

pub const GET_CURRENT_GAME_LANGUAGE: usize = 4;

pub const IS_SUBSCRIBED_APP: usize = 6;

pub const IS_APP_INSTALLED: usize = 20;

} // verus!
