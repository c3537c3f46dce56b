//! `STEAMUSERSTATS_INTERFACE_VERSION013`.
//!
//! Slots listed here are the unambiguous, non-overloaded ones. The overloaded
//! `GetStat` (0/1), `SetStat` (2/3) and `GetUserStat` (16/17) pairs are
//! resolved at run time.

use vstd::prelude::*;

verus! {

/// First slot of the `GetStat` overload group.
pub const GET_STAT_BASE: usize = 0;

/// First slot of the `SetStat` overload group.
pub const SET_STAT_BASE: usize = 2;

pub const UPDATE_AVG_RATE_STAT: usize = 4;

pub const GET_ACHIEVEMENT: usize = 5;

pub const SET_ACHIEVEMENT: usize = 6;

pub const CLEAR_ACHIEVEMENT: usize = 7;

pub const GET_ACHIEVEMENT_AND_UNLOCK_TIME: usize = 8;

pub const STORE_STATS: usize = 9;

pub const GET_ACHIEVEMENT_ICON: usize = 10;

pub const GET_ACHIEVEMENT_DISPLAY_ATTRIBUTE: usize = 11;

pub const INDICATE_ACHIEVEMENT_PROGRESS: usize = 12;

pub const GET_NUM_ACHIEVEMENTS: usize = 13;

pub const GET_ACHIEVEMENT_NAME: usize = 14;

pub const REQUEST_USER_STATS: usize = 15;

pub const RESET_ALL_STATS: usize = 20;

} // verus!
