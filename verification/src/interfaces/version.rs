//! Interface version strings passed to `CreateInterface` and the `GetISteam*`
//! getters.

use vstd::prelude::*;

verus! {

pub const STEAM_CLIENT: &'static str = "SteamClient018";

pub const STEAM_USER: &'static str = "SteamUser012";

pub const STEAM_USER_STATS: &'static str = "STEAMUSERSTATS_INTERFACE_VERSION013";

pub const STEAM_APPS_001: &'static str = "STEAMAPPS_INTERFACE_VERSION001";

pub const STEAM_APPS_008: &'static str = "STEAMAPPS_INTERFACE_VERSION008";

pub const STEAM_UTILS: &'static str = "SteamUtils005";

} // verus!
