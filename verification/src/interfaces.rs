//! Vtable slot indices for the Steam interfaces this tool uses.
//!
//! These are **Linux / Itanium C++ ABI** indices: virtual functions in plain
//! declaration order. `ISteamUserStats` overloads three of its methods on
//! `int32` versus `float`; which of such a pair comes first is resolved against
//! the running library, see [`crate::user_stats::OverloadOrder`].

pub mod steam_apps_001;
pub mod steam_apps_008;
pub mod steam_client;
pub mod steam_user;
pub mod steam_user_stats;
pub mod steam_utils;
pub mod version;
