//! `SteamClient018`. No overloads, so identical to the MSVC layout.

use vstd::prelude::*;

verus! {

pub const CREATE_STEAM_PIPE: usize = 0;

pub const RELEASE_STEAM_PIPE: usize = 1;

pub const CONNECT_TO_GLOBAL_USER: usize = 2;

pub const CREATE_LOCAL_USER: usize = 3;

pub const RELEASE_USER: usize = 4;

pub const GET_ISTEAM_USER: usize = 5;

pub const GET_ISTEAM_UTILS: usize = 9;

pub const GET_ISTEAM_USER_STATS: usize = 13;

pub const GET_ISTEAM_APPS: usize = 15;

} // verus!
