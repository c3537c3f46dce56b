//! Connecting to the running Steam client.
//!
//! Every call crosses into C++ through a vtable, so a layout mismatch is the
//! central risk: before anything is called, each slot must be shown to lie in
//! `steamclient.so`. The calls themselves are the caller's; what to call next,
//! and what to give back when something fails, is decided here.

use vstd::prelude::*;

use crate::error::{Error, ErrorModel};
use crate::fs_path;
use crate::fs_path::FsPath;
use crate::interfaces::steam_apps_001;
use crate::interfaces::steam_apps_008;
use crate::interfaces::steam_client;
use crate::interfaces::steam_user;
use crate::interfaces::steam_user_stats;
use crate::interfaces::steam_utils;
use crate::interfaces::version;
use crate::text;
use crate::vdf;

verus! {

/// A vtable slot that is about to be called.
#[derive(Debug, Clone, Copy)]
pub struct Slot {
    pub index: usize,
    pub name: &'static str,
}

/// A slot of an interface, in words.
pub open spec fn slot_words(interface: Seq<char>, slot: Slot) -> Seq<char> {
    interface + " slot "@ + text::decimal(slot.index as nat) + " ("@ + slot.name@ + ")"@
}

/// What is wrong with a slot whose function lies in `owner`, if anything is.
pub open spec fn slot_problem(
    interface: Seq<char>,
    library: Seq<u8>,
    slot: Slot,
    owner: Option<Seq<u8>>,
) -> Option<ErrorModel> {
    match owner {
        Some(path) if fs_path::same_path(path, library) => None,
        Some(path) => Some(
            ErrorModel::VtableSanityCheckFailed(
                slot_words(interface, slot) + " resolves into "@ + text::text_of_bytes(path)
                    + " rather than "@ + text::text_of_bytes(library),
            ),
        ),
        None => Some(
            ErrorModel::VtableSanityCheckFailed(
                slot_words(interface, slot) + " is null or unresolvable"@,
            ),
        ),
    }
}

/// What an optional path says.
pub open spec fn owner_view(owner: Option<FsPath>) -> Option<Seq<u8>> {
    match owner {
        Some(path) => Some(path@),
        None => None,
    }
}

/// Check that a slot resolves into `library`, given the shared object that its
/// function lies in, if any does.
///
/// A short vtable or a layout change usually yields a null slot, a pointer
/// into some unrelated library, or an address that cannot be resolved at all.
/// Rather than calling into whatever happens to sit at the index, this notices
/// up front and refuses.
pub fn check_slot(interface: &str, library: &FsPath, slot: Slot, owner: &Option<FsPath>) -> (r:
    Result<(), Error>)
    ensures
        match slot_problem(interface@, library@, slot, owner_view(*owner)) {
            None => r is Ok,
            Some(problem) => r matches Err(e) && e@ == problem,
        },
{
    let mut detail = interface.to_owned();
    detail.append(" slot ");
    text::push_decimal(&mut detail, slot.index as u64);
    detail.append(" (");
    detail.append(slot.name);
    detail.append(")");
    match owner {
        Some(path) => {
            if path.same_as(library) {
                return Ok(());
            }
            detail.append(" resolves into ");
            detail.append(path.display().as_str());
            detail.append(" rather than ");
            detail.append(library.display().as_str());
        },
        None => {
            detail.append(" is null or unresolvable");
        },
    }
    Err(Error::VtableSanityCheckFailed(detail))
}

/// What a list of slot owners says.
pub open spec fn owner_views(owners: Seq<Option<FsPath>>) -> Seq<Option<Seq<u8>>> {
    owners.map_values(|o: Option<FsPath>| owner_view(o))
}

/// The first problem among slots, of which the first lies in the first of
/// `owners`, the second in the second, and so on. A slot without an owner is one
/// that could not be resolved.
pub open spec fn first_problem(
    interface: Seq<char>,
    library: Seq<u8>,
    slots: Seq<Slot>,
    owners: Seq<Option<Seq<u8>>>,
) -> Option<ErrorModel>
    decreases slots.len(),
{
    if slots.len() == 0 {
        None
    } else {
        match first_problem(interface, library, slots.drop_last(), owners) {
            Some(problem) => Some(problem),
            None => slot_problem(
                interface,
                library,
                slots.last(),
                if slots.len() <= owners.len() {
                    owners[slots.len() - 1]
                } else {
                    None
                },
            ),
        }
    }
}

/// Check that slots resolve into `library`, given the shared objects that their
/// functions lie in, in the order of the slots.
pub fn verify_slots(
    interface: &str,
    library: &FsPath,
    slots: &Vec<Slot>,
    owners: &Vec<Option<FsPath>>,
) -> (r: Result<(), Error>)
    ensures
        match first_problem(interface@, library@, slots@, owner_views(owners@)) {
            None => r is Ok,
            Some(problem) => r matches Err(e) && e@ == problem,
        },
{
    let ghost seen = owner_views(owners@);
    for i in 0..slots.len()
        invariant
            seen == owner_views(owners@),
            first_problem(interface@, library@, slots@.take(i as int), seen) is None,
    {
        proof {
            assert(slots@.take(i + 1).drop_last() == slots@.take(i as int));
            if first_problem(interface@, library@, slots@.take(i + 1), seen) is Some {
                first_problem_stays(interface@, library@, slots@, seen, i + 1);
            }
        }
        if i < owners.len() {
            assert(seen[i as int] == owner_view(owners@[i as int]));
            check_slot(interface, library, slots[i], &owners[i])?;
        } else {
            check_slot(interface, library, slots[i], &None)?;
        }
    }
    assert(slots@.take(slots@.len() as int) == slots@);
    Ok(())
}

proof fn first_problem_stays(
    interface: Seq<char>,
    library: Seq<u8>,
    slots: Seq<Slot>,
    owners: Seq<Option<Seq<u8>>>,
    n: int,
)
    requires
        0 <= n <= slots.len(),
        first_problem(interface, library, slots.take(n), owners) is Some,
    ensures
        first_problem(interface, library, slots, owners) == first_problem(
            interface,
            library,
            slots.take(n),
            owners,
        ),
    decreases slots.len() - n,
{
    if n < slots.len() {
        assert(slots.take(n + 1).drop_last() == slots.take(n));
        first_problem_stays(interface, library, slots, owners, n + 1);
    } else {
        assert(slots.take(n) == slots);
    }
}

/// Slots pass only where every one of them lies in the library.
pub proof fn verified_slots_lie_in_the_library(
    interface: Seq<char>,
    library: Seq<u8>,
    slots: Seq<Slot>,
    owners: Seq<Option<Seq<u8>>>,
)
    ensures
        first_problem(interface, library, slots, owners) is None <==> slots.len() <= owners.len()
            && forall|i: int|
            0 <= i < slots.len() ==> (#[trigger] owners[i] matches Some(path) && fs_path::same_path(
                path,
                library,
            )),
    decreases slots.len(),
{
    if slots.len() > 0 {
        verified_slots_lie_in_the_library(interface, library, slots.drop_last(), owners);
    }
}

/// The slots of `SteamClient018` to check before anything is called through it:
/// every one that is ever called.
pub open spec fn client_slot_list() -> Seq<Slot> {
    seq![
        Slot { index: steam_client::CREATE_STEAM_PIPE, name: "CreateSteamPipe" },
        Slot { index: steam_client::CONNECT_TO_GLOBAL_USER, name: "ConnectToGlobalUser" },
        Slot { index: steam_client::GET_ISTEAM_USER_STATS, name: "GetISteamUserStats" },
        Slot { index: steam_client::GET_ISTEAM_APPS, name: "GetISteamApps" },
        Slot { index: steam_client::RELEASE_STEAM_PIPE, name: "ReleaseSteamPipe" },
        Slot { index: steam_client::RELEASE_USER, name: "ReleaseUser" },
        Slot { index: steam_client::GET_ISTEAM_USER, name: "GetISteamUser" },
        Slot { index: steam_client::GET_ISTEAM_UTILS, name: "GetISteamUtils" },
    ]
}

/// The slots of `SteamClient018` to check before anything is called through it.
pub fn client_slots() -> (r: Vec<Slot>)
    ensures
        r@ == client_slot_list(),
{
    let mut r: Vec<Slot> = Vec::new();
    r.push(Slot { index: steam_client::CREATE_STEAM_PIPE, name: "CreateSteamPipe" });
    r.push(Slot { index: steam_client::CONNECT_TO_GLOBAL_USER, name: "ConnectToGlobalUser" });
    r.push(Slot { index: steam_client::GET_ISTEAM_USER_STATS, name: "GetISteamUserStats" });
    r.push(Slot { index: steam_client::GET_ISTEAM_APPS, name: "GetISteamApps" });
    r.push(Slot { index: steam_client::RELEASE_STEAM_PIPE, name: "ReleaseSteamPipe" });
    r.push(Slot { index: steam_client::RELEASE_USER, name: "ReleaseUser" });
    r.push(Slot { index: steam_client::GET_ISTEAM_USER, name: "GetISteamUser" });
    r.push(Slot { index: steam_client::GET_ISTEAM_UTILS, name: "GetISteamUtils" });
    r
}

/// The slots of `ISteamUserStats013` to check before anything is called through
/// it: every one that is ever called.
pub open spec fn user_stats_slot_list() -> Seq<Slot> {
    seq![
        Slot { index: steam_user_stats::GET_STAT_BASE, name: "GetStat[0]" },
        Slot { index: (steam_user_stats::GET_STAT_BASE + 1) as usize, name: "GetStat[1]" },
        Slot { index: steam_user_stats::SET_STAT_BASE, name: "SetStat[0]" },
        Slot { index: (steam_user_stats::SET_STAT_BASE + 1) as usize, name: "SetStat[1]" },
        Slot { index: steam_user_stats::GET_ACHIEVEMENT, name: "GetAchievement" },
        Slot { index: steam_user_stats::SET_ACHIEVEMENT, name: "SetAchievement" },
        Slot { index: steam_user_stats::CLEAR_ACHIEVEMENT, name: "ClearAchievement" },
        Slot {
            index: steam_user_stats::GET_ACHIEVEMENT_AND_UNLOCK_TIME,
            name: "GetAchievementAndUnlockTime",
        },
        Slot { index: steam_user_stats::STORE_STATS, name: "StoreStats" },
        Slot { index: steam_user_stats::GET_NUM_ACHIEVEMENTS, name: "GetNumAchievements" },
        Slot { index: steam_user_stats::REQUEST_USER_STATS, name: "RequestUserStats" },
        Slot { index: steam_user_stats::RESET_ALL_STATS, name: "ResetAllStats" },
        Slot {
            index: steam_user_stats::GET_ACHIEVEMENT_DISPLAY_ATTRIBUTE,
            name: "GetAchievementDisplayAttribute",
        },
        Slot { index: steam_user_stats::GET_ACHIEVEMENT_NAME, name: "GetAchievementName" },
    ]
}

/// The slots of `ISteamUserStats013` to check before anything is called through
/// it.
pub fn user_stats_slots() -> (r: Vec<Slot>)
    ensures
        r@ == user_stats_slot_list(),
{
    let mut r: Vec<Slot> = Vec::new();
    r.push(Slot { index: steam_user_stats::GET_STAT_BASE, name: "GetStat[0]" });
    r.push(Slot { index: steam_user_stats::GET_STAT_BASE + 1, name: "GetStat[1]" });
    r.push(Slot { index: steam_user_stats::SET_STAT_BASE, name: "SetStat[0]" });
    r.push(Slot { index: steam_user_stats::SET_STAT_BASE + 1, name: "SetStat[1]" });
    r.push(Slot { index: steam_user_stats::GET_ACHIEVEMENT, name: "GetAchievement" });
    r.push(Slot { index: steam_user_stats::SET_ACHIEVEMENT, name: "SetAchievement" });
    r.push(Slot { index: steam_user_stats::CLEAR_ACHIEVEMENT, name: "ClearAchievement" });
    r.push(
        Slot {
            index: steam_user_stats::GET_ACHIEVEMENT_AND_UNLOCK_TIME,
            name: "GetAchievementAndUnlockTime",
        },
    );
    r.push(Slot { index: steam_user_stats::STORE_STATS, name: "StoreStats" });
    r.push(Slot { index: steam_user_stats::GET_NUM_ACHIEVEMENTS, name: "GetNumAchievements" });
    r.push(Slot { index: steam_user_stats::REQUEST_USER_STATS, name: "RequestUserStats" });
    r.push(Slot { index: steam_user_stats::RESET_ALL_STATS, name: "ResetAllStats" });
    r.push(
        Slot {
            index: steam_user_stats::GET_ACHIEVEMENT_DISPLAY_ATTRIBUTE,
            name: "GetAchievementDisplayAttribute",
        },
    );
    r.push(Slot { index: steam_user_stats::GET_ACHIEVEMENT_NAME, name: "GetAchievementName" });
    r
}

/// An interface that a session holds.
#[derive(Debug, Clone, Copy, PartialEq, Eq, Structural)]
pub enum Getter {
    Utils,
    User,
    UserStats,
    Apps001,
    Apps008,
}

/// The interface that is fetched behind this one, if any is.
pub open spec fn getter_after(getter: Getter) -> Option<Getter> {
    match getter {
        Getter::Utils => Some(Getter::User),
        Getter::User => Some(Getter::UserStats),
        Getter::UserStats => Some(Getter::Apps001),
        Getter::Apps001 => Some(Getter::Apps008),
        Getter::Apps008 => None,
    }
}

/// What an interface is called when Steam has none.
pub open spec fn getter_label(getter: Getter) -> Seq<char> {
    match getter {
        Getter::Utils => "ISteamUtils"@,
        Getter::User => "ISteamUser"@,
        Getter::UserStats => "ISteamUserStats"@,
        Getter::Apps001 => "ISteamApps"@,
        Getter::Apps008 => "ISteamApps"@,
    }
}

/// The slot of `SteamClient018` that hands an interface out.
pub open spec fn getter_slot(getter: Getter) -> usize {
    match getter {
        Getter::Utils => steam_client::GET_ISTEAM_UTILS,
        Getter::User => steam_client::GET_ISTEAM_USER,
        Getter::UserStats => steam_client::GET_ISTEAM_USER_STATS,
        Getter::Apps001 => steam_client::GET_ISTEAM_APPS,
        Getter::Apps008 => steam_client::GET_ISTEAM_APPS,
    }
}

/// The version of an interface to ask for.
pub open spec fn getter_version(getter: Getter) -> Seq<char> {
    match getter {
        Getter::Utils => version::STEAM_UTILS@,
        Getter::User => version::STEAM_USER@,
        Getter::UserStats => version::STEAM_USER_STATS@,
        Getter::Apps001 => version::STEAM_APPS_001@,
        Getter::Apps008 => version::STEAM_APPS_008@,
    }
}

/// The slots of an interface to check as soon as it is there: every one that is
/// ever called. Those of the stats interface are checked apart, before its first
/// use, since a session can do without it; see [`user_stats_slot_list`].
pub open spec fn getter_slot_list(getter: Getter) -> Seq<Slot> {
    match getter {
        Getter::Utils => seq![Slot { index: steam_utils::GET_APP_ID, name: "GetAppID" }],
        Getter::User => seq![Slot { index: steam_user::GET_STEAM_ID, name: "GetSteamID" }],
        Getter::UserStats => Seq::empty(),
        Getter::Apps001 => seq![Slot { index: steam_apps_001::GET_APP_DATA, name: "GetAppData" }],
        Getter::Apps008 => seq![
            Slot {
                index: steam_apps_008::GET_CURRENT_GAME_LANGUAGE,
                name: "GetCurrentGameLanguage",
            },
            Slot { index: steam_apps_008::IS_SUBSCRIBED_APP, name: "IsSubscribedApp" },
            Slot { index: steam_apps_008::IS_APP_INSTALLED, name: "BIsAppInstalled" },
        ],
    }
}

impl Getter {
    /// The slots of the interface to check as soon as it is there.
    pub fn slots(self) -> (r: Vec<Slot>)
        ensures
            r@ == getter_slot_list(self),
    {
        let mut r: Vec<Slot> = Vec::new();
        match self {
            Getter::Utils => {
                r.push(Slot { index: steam_utils::GET_APP_ID, name: "GetAppID" });
            },
            Getter::User => {
                r.push(Slot { index: steam_user::GET_STEAM_ID, name: "GetSteamID" });
            },
            Getter::UserStats => {},
            Getter::Apps001 => {
                r.push(Slot { index: steam_apps_001::GET_APP_DATA, name: "GetAppData" });
            },
            Getter::Apps008 => {
                r.push(
                    Slot {
                        index: steam_apps_008::GET_CURRENT_GAME_LANGUAGE,
                        name: "GetCurrentGameLanguage",
                    },
                );
                r.push(Slot { index: steam_apps_008::IS_SUBSCRIBED_APP, name: "IsSubscribedApp" });
                r.push(Slot { index: steam_apps_008::IS_APP_INSTALLED, name: "BIsAppInstalled" });
            },
        }
        r
    }

    /// The interface that is fetched behind this one.
    pub fn after(self) -> (r: Option<Getter>)
        ensures
            r == getter_after(self),
    {
        match self {
            Getter::Utils => Some(Getter::User),
            Getter::User => Some(Getter::UserStats),
            Getter::UserStats => Some(Getter::Apps001),
            Getter::Apps001 => Some(Getter::Apps008),
            Getter::Apps008 => None,
        }
    }

    /// What the interface is called when Steam has none.
    pub fn label(self) -> (r: &'static str)
        ensures
            r@ == getter_label(self),
    {
        match self {
            Getter::Utils => "ISteamUtils",
            Getter::User => "ISteamUser",
            Getter::UserStats => "ISteamUserStats",
            Getter::Apps001 => "ISteamApps",
            Getter::Apps008 => "ISteamApps",
        }
    }

    /// The slot of `SteamClient018` that hands the interface out.
    pub fn slot(self) -> (r: usize)
        ensures
            r == getter_slot(self),
    {
        match self {
            Getter::Utils => steam_client::GET_ISTEAM_UTILS,
            Getter::User => steam_client::GET_ISTEAM_USER,
            Getter::UserStats => steam_client::GET_ISTEAM_USER_STATS,
            Getter::Apps001 => steam_client::GET_ISTEAM_APPS,
            Getter::Apps008 => steam_client::GET_ISTEAM_APPS,
        }
    }

    /// The version to ask for.
    pub fn version(self) -> (r: &'static str)
        ensures
            r@ == getter_version(self),
    {
        match self {
            Getter::Utils => version::STEAM_UTILS,
            Getter::User => version::STEAM_USER,
            Getter::UserStats => version::STEAM_USER_STATS,
            Getter::Apps001 => version::STEAM_APPS_001,
            Getter::Apps008 => version::STEAM_APPS_008,
        }
    }
}

/// How far the opening of a session has got.
#[derive(Debug, PartialEq)]
pub enum Stage {
    /// The client interface is to be created.
    Client,
    /// The slots of the client interface are to be checked, from this one on.
    Slots { next: usize },
    /// A pipe is to be created.
    Pipe,
    /// The global user is to be connected to.
    User { pipe: i32 },
    /// This interface is to be fetched.
    Fetch { pipe: i32, user: i32, getter: Getter },
    /// The slots of this interface are to be checked, from this one on.
    Check { pipe: i32, user: i32, getter: Getter, next: usize },
    /// Steam is to be asked which app it takes this process for.
    AppId { pipe: i32, user: i32, requested: u32 },
    /// The user, and then the pipe, are to be given back before failing.
    ReleaseUser { pipe: i32, user: i32, error: Error },
    /// The pipe is to be given back before failing.
    ReleasePipe { pipe: i32, error: Error },
    /// The session is open.
    Opened { pipe: i32, user: i32 },
    /// There is no session.
    Failed { error: Error },
}

/// What a [`Stage`] says.
pub enum StageModel {
    Client,
    Slots { next: nat },
    Pipe,
    User { pipe: i32 },
    Fetch { pipe: i32, user: i32, getter: Getter },
    Check { pipe: i32, user: i32, getter: Getter, next: nat },
    AppId { pipe: i32, user: i32, requested: u32 },
    ReleaseUser { pipe: i32, user: i32, error: ErrorModel },
    ReleasePipe { pipe: i32, error: ErrorModel },
    Opened { pipe: i32, user: i32 },
    Failed { error: ErrorModel },
}

impl View for Stage {
    type V = StageModel;

    open spec fn view(&self) -> StageModel {
        match *self {
            Stage::Client => StageModel::Client,
            Stage::Slots { next } => StageModel::Slots { next: next as nat },
            Stage::Pipe => StageModel::Pipe,
            Stage::User { pipe } => StageModel::User { pipe },
            Stage::Fetch { pipe, user, getter } => StageModel::Fetch { pipe, user, getter },
            Stage::Check { pipe, user, getter, next } => StageModel::Check {
                pipe,
                user,
                getter,
                next: next as nat,
            },
            Stage::AppId { pipe, user, requested } => StageModel::AppId { pipe, user, requested },
            Stage::ReleaseUser { pipe, user, error } => StageModel::ReleaseUser {
                pipe,
                user,
                error: error@,
            },
            Stage::ReleasePipe { pipe, error } => StageModel::ReleasePipe { pipe, error: error@ },
            Stage::Opened { pipe, user } => StageModel::Opened { pipe, user },
            Stage::Failed { error } => StageModel::Failed { error: error@ },
        }
    }
}

/// What Steam answered to the step that a stage calls for.
#[derive(Debug, PartialEq)]
#[allow(inconsistent_fields)]
pub enum Reply {
    /// Whether an interface came back.
    Interface { given: bool },
    /// The shared object that a slot's function lies in, if any.
    Owner { path: Option<FsPath> },
    /// A pipe or a user; 0 stands for none.
    Handle { value: i32 },
    /// An app ID.
    AppId { value: u32 },
    /// A handle was given back.
    Released,
}

/// What a [`Reply`] says.
#[allow(inconsistent_fields)]
pub enum ReplyModel {
    Interface { given: bool },
    Owner { path: Option<Seq<u8>> },
    Handle { value: i32 },
    AppId { value: u32 },
    Released,
}

impl View for Reply {
    type V = ReplyModel;

    open spec fn view(&self) -> ReplyModel {
        match *self {
            Reply::Interface { given } => ReplyModel::Interface { given },
            Reply::Owner { path } => ReplyModel::Owner { path: owner_view(path) },
            Reply::Handle { value } => ReplyModel::Handle { value },
            Reply::AppId { value } => ReplyModel::AppId { value },
            Reply::Released => ReplyModel::Released,
        }
    }
}

/// The stage once an interface is there and its slots are checked.
pub open spec fn interface_ready(
    pipe: i32,
    user: i32,
    getter: Getter,
    app_id: Option<u32>,
) -> StageModel {
    match getter_after(getter) {
        Some(next) => StageModel::Fetch { pipe, user, getter: next },
        None => match app_id {
            Some(requested) => StageModel::AppId { pipe, user, requested },
            None => StageModel::Opened { pipe, user },
        },
    }
}

/// The stage behind `stage`, where Steam answered `reply`. An answer to another
/// question than the one that was asked changes nothing.
pub open spec fn stage_after(
    stage: StageModel,
    reply: ReplyModel,
    app_id: Option<u32>,
    library: Seq<u8>,
) -> StageModel {
    match (stage, reply) {
        (StageModel::Client, ReplyModel::Interface { given }) => if given {
            StageModel::Slots { next: 0 }
        } else {
            StageModel::Failed { error: ErrorModel::CreateInterface(version::STEAM_CLIENT@) }
        },
        (StageModel::Slots { next }, ReplyModel::Owner { path }) => if next
            >= client_slot_list().len() {
            StageModel::Pipe
        } else {
            match slot_problem(
                version::STEAM_CLIENT@,
                library,
                client_slot_list()[next as int],
                path,
            ) {
                Some(error) => StageModel::Failed { error },
                None => if next + 1 < client_slot_list().len() {
                    StageModel::Slots { next: next + 1 }
                } else {
                    StageModel::Pipe
                },
            }
        },
        (StageModel::Pipe, ReplyModel::Handle { value }) => if value == 0 {
            StageModel::Failed { error: ErrorModel::CreateSteamPipe }
        } else {
            StageModel::User { pipe: value }
        },
        (StageModel::User { pipe }, ReplyModel::Handle { value }) => if value == 0 {
            StageModel::ReleasePipe { pipe, error: ErrorModel::ConnectToGlobalUser }
        } else {
            StageModel::Fetch { pipe, user: value, getter: Getter::Utils }
        },
        (StageModel::Fetch { pipe, user, getter }, ReplyModel::Interface { given }) => if !given {
            StageModel::ReleaseUser {
                pipe,
                user,
                error: ErrorModel::GetInterface(getter_label(getter)),
            }
        } else if getter_slot_list(getter).len() > 0 {
            StageModel::Check { pipe, user, getter, next: 0 }
        } else {
            interface_ready(pipe, user, getter, app_id)
        },
        (
            StageModel::Check { pipe, user, getter, next },
            ReplyModel::Owner { path },
        ) => if next >= getter_slot_list(getter).len() {
            interface_ready(pipe, user, getter, app_id)
        } else {
            match slot_problem(
                getter_version(getter),
                library,
                getter_slot_list(getter)[next as int],
                path,
            ) {
                Some(error) => StageModel::ReleaseUser { pipe, user, error },
                None => if next + 1 < getter_slot_list(getter).len() {
                    StageModel::Check { pipe, user, getter, next: next + 1 }
                } else {
                    interface_ready(pipe, user, getter, app_id)
                },
            }
        },
        (
            StageModel::AppId { pipe, user, requested },
            ReplyModel::AppId { value },
        ) => if value == requested {
            StageModel::Opened { pipe, user }
        } else {
            StageModel::ReleaseUser {
                pipe,
                user,
                error: ErrorModel::AppIdMismatch { requested, actual: value },
            }
        },
        (
            StageModel::ReleaseUser { pipe, user, error },
            ReplyModel::Released,
        ) => StageModel::ReleasePipe { pipe, error },
        (StageModel::ReleasePipe { pipe, error }, ReplyModel::Released) => StageModel::Failed {
            error,
        },
        _ => stage,
    }
}

impl Stage {
    fn ready(pipe: i32, user: i32, getter: Getter, app_id: Option<u32>) -> (r: Stage)
        ensures
            r@ == interface_ready(pipe, user, getter, app_id),
    {
        match getter.after() {
            Some(next) => Stage::Fetch { pipe, user, getter: next },
            None => match app_id {
                Some(requested) => Stage::AppId { pipe, user, requested },
                None => Stage::Opened { pipe, user },
            },
        }
    }

    /// Takes Steam's answer to the step that this stage calls for.
    ///
    /// `app_id` is the app to act as, if any. A mismatch with what Steam
    /// reports means the environment variable did not take effect and every
    /// stat call would silently target the wrong game.
    pub fn advance(self, reply: Reply, app_id: Option<u32>, library: &FsPath) -> (r: Stage)
        ensures
            r@ == stage_after(self@, reply@, app_id, library@),
    {
        match (self, reply) {
            (Stage::Client, Reply::Interface { given }) => if given {
                Stage::Slots { next: 0 }
            } else {
                Stage::Failed { error: Error::CreateInterface(version::STEAM_CLIENT) }
            },
            (Stage::Slots { next }, Reply::Owner { path }) => {
                let slots = client_slots();
                if next >= slots.len() {
                    return Stage::Pipe;
                }
                match check_slot(version::STEAM_CLIENT, library, slots[next], &path) {
                    Err(error) => Stage::Failed { error },
                    Ok(()) => if next + 1 < slots.len() {
                        Stage::Slots { next: next + 1 }
                    } else {
                        Stage::Pipe
                    },
                }
            },
            (Stage::Pipe, Reply::Handle { value }) => if value == 0 {
                Stage::Failed { error: Error::CreateSteamPipe }
            } else {
                Stage::User { pipe: value }
            },
            (Stage::User { pipe }, Reply::Handle { value }) => if value == 0 {
                Stage::ReleasePipe { pipe, error: Error::ConnectToGlobalUser }
            } else {
                Stage::Fetch { pipe, user: value, getter: Getter::Utils }
            },
            (Stage::Fetch { pipe, user, getter }, Reply::Interface { given }) => if !given {
                Stage::ReleaseUser { pipe, user, error: Error::GetInterface(getter.label()) }
            } else if getter.slots().len() > 0 {
                Stage::Check { pipe, user, getter, next: 0 }
            } else {
                Stage::ready(pipe, user, getter, app_id)
            },
            (Stage::Check { pipe, user, getter, next }, Reply::Owner { path }) => {
                let slots = getter.slots();
                if next >= slots.len() {
                    return Stage::ready(pipe, user, getter, app_id);
                }
                match check_slot(getter.version(), library, slots[next], &path) {
                    Err(error) => Stage::ReleaseUser { pipe, user, error },
                    Ok(()) => if next + 1 < slots.len() {
                        Stage::Check { pipe, user, getter, next: next + 1 }
                    } else {
                        Stage::ready(pipe, user, getter, app_id)
                    },
                }
            },
            (Stage::AppId { pipe, user, requested }, Reply::AppId { value }) => if value
                == requested {
                Stage::Opened { pipe, user }
            } else {
                Stage::ReleaseUser {
                    pipe,
                    user,
                    error: Error::AppIdMismatch { requested, actual: value },
                }
            },
            (
                Stage::ReleaseUser { pipe, user: _, error },
                Reply::Released,
            ) => Stage::ReleasePipe { pipe, error },
            (Stage::ReleasePipe { pipe: _, error }, Reply::Released) => Stage::Failed { error },
            (stage, _) => stage,
        }
    }
}

/// The handles that are held at a stage: a pipe, and a user.
pub open spec fn held(stage: StageModel) -> (Option<i32>, Option<i32>) {
    match stage {
        StageModel::Client => (None, None),
        StageModel::Slots { .. } => (None, None),
        StageModel::Pipe => (None, None),
        StageModel::User { pipe } => (Some(pipe), None),
        StageModel::Fetch { pipe, user, .. } => (Some(pipe), Some(user)),
        StageModel::Check { pipe, user, .. } => (Some(pipe), Some(user)),
        StageModel::AppId { pipe, user, .. } => (Some(pipe), Some(user)),
        StageModel::ReleaseUser { pipe, user, .. } => (Some(pipe), Some(user)),
        StageModel::ReleasePipe { pipe, .. } => (Some(pipe), None),
        StageModel::Opened { pipe, user } => (Some(pipe), Some(user)),
        StageModel::Failed { .. } => (None, None),
    }
}

/// Handles are neither lost nor made up on the way: what is held changes by
/// what Steam hands out and by what is given back, and by nothing else. Since a
/// failed opening holds nothing, everything that was handed out before it failed
/// has been given back, the user before the pipe.
pub proof fn handles_are_accounted_for(
    stage: StageModel,
    reply: ReplyModel,
    app_id: Option<u32>,
    library: Seq<u8>,
)
    ensures
        held(stage_after(stage, reply, app_id, library)) == match (stage, reply) {
            (StageModel::Pipe, ReplyModel::Handle { value }) if value != 0 => (Some(value), None),
            (StageModel::User { pipe }, ReplyModel::Handle { value }) if value != 0 => (
                Some(pipe),
                Some(value),
            ),
            (StageModel::ReleaseUser { pipe, .. }, ReplyModel::Released) => (Some(pipe), None),
            (StageModel::ReleasePipe { .. }, ReplyModel::Released) => (None, None),
            _ => held(stage),
        },
{
}

/// A session for an app is opened only where Steam takes this process for that
/// app, and one for no app in particular without asking.
pub proof fn only_the_requested_app_is_opened(
    stage: StageModel,
    reply: ReplyModel,
    app_id: Option<u32>,
    library: Seq<u8>,
)
    requires
        stage !is Opened,
        stage_after(stage, reply, app_id, library) is Opened,
        stage matches StageModel::AppId { requested, .. } ==> app_id == Some(requested),
    ensures
        match app_id {
            Some(requested) => stage is AppId && reply == (ReplyModel::AppId { value: requested }),
            None => stage matches StageModel::Check { getter: Getter::Apps008, .. },
        },
{
}

/// How far an opening has got after one answer upon another.
pub open spec fn opening(
    replies: Seq<ReplyModel>,
    app_id: Option<u32>,
    library: Seq<u8>,
) -> StageModel
    decreases replies.len(),
{
    if replies.len() == 0 {
        StageModel::Client
    } else {
        stage_after(opening(replies.drop_last(), app_id, library), replies.last(), app_id, library)
    }
}

/// How many slots were found to lie in the library on the way.
pub open spec fn slots_checked(
    replies: Seq<ReplyModel>,
    app_id: Option<u32>,
    library: Seq<u8>,
) -> nat
    decreases replies.len(),
{
    if replies.len() == 0 {
        0
    } else {
        let before = slots_checked(replies.drop_last(), app_id, library);
        match (opening(replies.drop_last(), app_id, library), replies.last()) {
            (
                StageModel::Slots { .. },
                ReplyModel::Owner { path: Some(path) },
            ) if fs_path::same_path(path, library) => before + 1,
            (
                StageModel::Check { .. },
                ReplyModel::Owner { path: Some(path) },
            ) if fs_path::same_path(path, library) => before + 1,
            _ => before,
        }
    }
}

/// How many slots there are to check of the interfaces before this one, the
/// client interface not counted.
pub open spec fn slots_before(getter: Getter) -> nat {
    match getter {
        Getter::Utils => 0,
        Getter::User => getter_slot_list(Getter::Utils).len(),
        Getter::UserStats => getter_slot_list(Getter::Utils).len() + getter_slot_list(Getter::User).len(),
        Getter::Apps001 => getter_slot_list(Getter::Utils).len() + getter_slot_list(Getter::User).len()
            + getter_slot_list(Getter::UserStats).len(),
        Getter::Apps008 => getter_slot_list(Getter::Utils).len() + getter_slot_list(Getter::User).len()
            + getter_slot_list(Getter::UserStats).len() + getter_slot_list(Getter::Apps001).len(),
    }
}

/// How many slots must have been checked at a stage: every one of the interfaces
/// that are at hand, the stats interface not counted. Of an opening that is about
/// to fail it is only known that those of the client interface were.
pub open spec fn slots_due(stage: StageModel) -> Option<nat> {
    let client = client_slot_list().len();
    match stage {
        StageModel::Client => Some(0),
        StageModel::Slots { next } => Some(next),
        StageModel::Pipe => Some(client),
        StageModel::User { .. } => Some(client),
        StageModel::Fetch { getter, .. } => Some(client + slots_before(getter)),
        StageModel::Check { getter, next, .. } => Some(client + slots_before(getter) + next),
        StageModel::AppId { .. } => Some(
            client + slots_before(Getter::Apps008) + getter_slot_list(Getter::Apps008).len(),
        ),
        StageModel::Opened { .. } => Some(
            client + slots_before(Getter::Apps008) + getter_slot_list(Getter::Apps008).len(),
        ),
        _ => None,
    }
}

/// No interface is called before every slot that is ever called of it was found
/// to lie in the library. A session that is open holds a pipe and a user, and was
/// opened for the app that was asked for, and for no other: Steam has named that
/// app.
pub proof fn sessions_are_opened_with_care(
    replies: Seq<ReplyModel>,
    app_id: Option<u32>,
    library: Seq<u8>,
)
    ensures
        slots_due(opening(replies, app_id, library)) matches Some(due) ==> slots_checked(
            replies,
            app_id,
            library,
        ) == due,
        match opening(replies, app_id, library) {
            StageModel::Slots { next } => next < client_slot_list().len(),
            StageModel::Check { getter, next, .. } => next < getter_slot_list(getter).len(),
            StageModel::ReleaseUser { .. } => slots_checked(replies, app_id, library)
                >= client_slot_list().len(),
            StageModel::ReleasePipe { .. } => slots_checked(replies, app_id, library)
                >= client_slot_list().len(),
            _ => true,
        },
        opening(replies, app_id, library) matches StageModel::AppId { requested, .. } ==> app_id
            == Some(requested),
        opening(replies, app_id, library) matches StageModel::Opened { pipe, user } ==> {
            &&& pipe != 0 && user != 0
            &&& app_id matches Some(requested) ==> replies.contains(
                ReplyModel::AppId { value: requested },
            )
        },
        match held(opening(replies, app_id, library)) {
            (pipe, user) => {
                &&& pipe matches Some(handle) ==> handle != 0
                &&& user matches Some(handle) ==> handle != 0 && pipe is Some
            },
        },
    decreases replies.len(),
{
    if replies.len() > 0 {
        let before = replies.drop_last();
        sessions_are_opened_with_care(before, app_id, library);
        if opening(before, app_id, library) is Opened {
            if let Some(requested) = app_id {
                let i = choose|i: int|
                    0 <= i < before.len() && before[i] == (ReplyModel::AppId { value: requested });
                assert(replies[i] == before[i]);
            }
        } else if opening(replies, app_id, library) is Opened {
            assert(replies[replies.len() - 1] == replies.last());
        }
    }
}

/// A slot is in a list.
pub open spec fn is_among(slots: Seq<Slot>, index: usize) -> bool {
    exists|i: int| 0 <= i < slots.len() && (#[trigger] slots[i]).index == index
}

/// Every slot of the client interface that hands an interface out, opens a pipe or
/// a user or gives one back is among those that are checked.
pub proof fn client_calls_are_checked(getter: Getter)
    ensures
        is_among(client_slot_list(), getter_slot(getter)),
        is_among(client_slot_list(), steam_client::CREATE_STEAM_PIPE),
        is_among(client_slot_list(), steam_client::CONNECT_TO_GLOBAL_USER),
        is_among(client_slot_list(), steam_client::RELEASE_USER),
        is_among(client_slot_list(), steam_client::RELEASE_STEAM_PIPE),
{
    let slots = client_slot_list();
    assert(slots[0].index == steam_client::CREATE_STEAM_PIPE);
    assert(slots[1].index == steam_client::CONNECT_TO_GLOBAL_USER);
    assert(slots[2].index == steam_client::GET_ISTEAM_USER_STATS);
    assert(slots[3].index == steam_client::GET_ISTEAM_APPS);
    assert(slots[4].index == steam_client::RELEASE_STEAM_PIPE);
    assert(slots[5].index == steam_client::RELEASE_USER);
    assert(slots[6].index == steam_client::GET_ISTEAM_USER);
    assert(slots[7].index == steam_client::GET_ISTEAM_UTILS);
}

/// How many answers an opening can still take, where this interface is next.
pub open spec fn fetches_left(getter: Getter) -> nat {
    match getter {
        Getter::Utils => 28,
        Getter::User => 24,
        Getter::UserStats => 20,
        Getter::Apps001 => 16,
        Getter::Apps008 => 12,
    }
}

/// How many answers an opening can still take.
pub open spec fn answers_left(stage: StageModel) -> nat {
    match stage {
        StageModel::Client => 40,
        StageModel::Slots { next } => if next >= 8 {
            31
        } else {
            (39 - next) as nat
        },
        StageModel::Pipe => 30,
        StageModel::User { .. } => 29,
        StageModel::Fetch { getter, .. } => fetches_left(getter),
        StageModel::Check { getter, next, .. } => if next >= 2 {
            (fetches_left(getter) - 3) as nat
        } else {
            (fetches_left(getter) - 1 - next) as nat
        },
        StageModel::AppId { .. } => 8,
        StageModel::ReleaseUser { .. } => 2,
        StageModel::ReleasePipe { .. } => 1,
        StageModel::Opened { .. } => 0,
        StageModel::Failed { .. } => 0,
    }
}

/// An answer that fits the question of a stage.
pub open spec fn fits(stage: StageModel, reply: ReplyModel) -> bool {
    match stage {
        StageModel::Client => reply is Interface,
        StageModel::Slots { .. } => reply is Owner,
        StageModel::Pipe => reply is Handle,
        StageModel::User { .. } => reply is Handle,
        StageModel::Fetch { .. } => reply is Interface,
        StageModel::Check { .. } => reply is Owner,
        StageModel::AppId { .. } => reply is AppId,
        StageModel::ReleaseUser { .. } => reply is Released,
        StageModel::ReleasePipe { .. } => reply is Released,
        StageModel::Opened { .. } => false,
        StageModel::Failed { .. } => false,
    }
}

/// Every answer that fits brings the opening nearer to its end.
pub proof fn opening_ends(
    stage: StageModel,
    reply: ReplyModel,
    app_id: Option<u32>,
    library: Seq<u8>,
)
    requires
        fits(stage, reply),
    ensures
        answers_left(stage_after(stage, reply, app_id, library)) < answers_left(stage),
{
}

/// A handle to give back.
#[derive(Debug, Clone, Copy, PartialEq, Eq, Structural)]
pub enum Release {
    User { pipe: i32, user: i32 },
    Pipe { pipe: i32 },
}

/// What to give back when a session ends, in the reverse order of acquisition.
/// A handle of 0 is none.
pub fn releases(pipe: i32, user: i32) -> (r: Vec<Release>)
    ensures
        r@ == (if user != 0 {
            seq![Release::User { pipe, user }]
        } else {
            Seq::<Release>::empty()
        }) + (if pipe != 0 {
            seq![Release::Pipe { pipe }]
        } else {
            Seq::<Release>::empty()
        }),
{
    let mut r: Vec<Release> = Vec::new();
    if user != 0 {
        r.push(Release::User { pipe, user });
    }
    if pipe != 0 {
        r.push(Release::Pipe { pipe });
    }
    r
}

/// The text that Steam wrote into a buffer of which it says that `written`
/// bytes were filled. It ends at the first NUL, and nowhere behind what was
/// written.
pub open spec fn written_text(buffer: Seq<u8>, written: int) -> Option<Seq<char>> {
    let limit = if written < buffer.len() {
        written
    } else {
        buffer.len() as int
    };
    let front = buffer.take(limit);
    let value = text::text_of_bytes(front.take(vdf::nul_from(front, 0)));
    if written <= 0 || value.len() == 0 {
        None
    } else {
        Some(value)
    }
}

/// How many bytes of room `GetAppData` is given. App data values are short
/// (names, capsule file names); anything longer is truncated rather than
/// overflowing, because the capacity is passed along.
pub const APP_DATA_CAPACITY: usize = 1024;

/// What `GetAppData` says: it fills a caller-provided buffer and returns the
/// number of bytes written, or 0 when there is no value. None when Steam has no
/// value cached, which is common for apps never launched.
pub fn app_data_value(buffer: &Vec<u8>, written: i32) -> (r: Option<String>)
    ensures
        match written_text(buffer@, written as int) {
            Some(value) => r matches Some(s) && s@ == value,
            None => r is None,
        },
{
    if written <= 0 {
        return None;
    }
    // Steam NUL-terminates, but bound by the reported length as well so a
    // misbehaving value cannot run past what was actually written.
    let limit: usize = if (written as u64) < buffer.len() as u64 {
        written as usize
    } else {
        buffer.len()
    };
    let front = vstd::slice::slice_subrange(buffer.as_slice(), 0, limit);
    assert(front@ == buffer@.take(limit as int));
    let mut end: usize = 0;
    while end < front.len() && front[end] != 0
        invariant
            end <= front@.len(),
            vdf::nul_from(front@, 0) == vdf::nul_from(front@, end as int),
        decreases front@.len() - end,
    {
        end = end + 1;
    }
    let value = text::lossy_text(vstd::slice::slice_subrange(front, 0, end));
    assert(front@.subrange(0, end as int) == front@.take(end as int));
    if value.as_str().is_empty() {
        None
    } else {
        Some(value)
    }
}

/// A complaint about a slot tells of the interface, of the slot's number and of its name.
pub proof fn complaints_name_the_slot(
    interface: Seq<char>,
    library: Seq<u8>,
    slot: Slot,
    owner: Option<Seq<u8>>,
)
    requires
        !(owner matches Some(path) && fs_path::same_path(path, library)),
    ensures
        slot_problem(interface, library, slot, owner) matches Some(
            ErrorModel::VtableSanityCheckFailed(words),
        ) && exists|a: Seq<char>, b: Seq<char>, c: Seq<char>|
            words == #[trigger] (interface + a + text::decimal(slot.index as nat) + b + slot.name@
                + c),
        owner matches Some(path) ==> (slot_problem(interface, library, slot, owner) matches Some(
            ErrorModel::VtableSanityCheckFailed(words),
        ) && exists|a: Seq<char>, b: Seq<char>|
            words == #[trigger] (a + text::text_of_bytes(path) + b + text::text_of_bytes(library))),
{
    let words = slot_problem(interface, library, slot, owner)->0->VtableSanityCheckFailed_0;
    let a = " slot "@;
    let b = " ("@;
    match owner {
        Some(path) => {
            let c = ")"@ + " resolves into "@ + text::text_of_bytes(path) + " rather than "@
                + text::text_of_bytes(library);
            assert(words =~= interface + a + text::decimal(slot.index as nat) + b + slot.name@ + c);
            let front = slot_words(interface, slot) + " resolves into "@;
            assert(words =~= front + text::text_of_bytes(path) + " rather than "@
                + text::text_of_bytes(library));
        },
        None => {
            let c = ")"@ + " is null or unresolvable"@;
            assert(words =~= interface + a + text::decimal(slot.index as nat) + b + slot.name@ + c);
        },
    }
}

/// The complaint is about the first slot that does not lie in the library.
pub proof fn the_first_bad_slot_is_told(
    interface: Seq<char>,
    library: Seq<u8>,
    slots: Seq<Slot>,
    owners: Seq<Option<Seq<u8>>>,
    i: int,
)
    requires
        0 <= i < slots.len(),
        i < owners.len(),
        !(owners[i] matches Some(path) && fs_path::same_path(path, library)),
        forall|j: int|
            0 <= j < i ==> (#[trigger] owners[j] matches Some(path) && fs_path::same_path(
                path,
                library,
            )),
    ensures
        first_problem(interface, library, slots, owners) == slot_problem(
            interface,
            library,
            slots[i],
            owners[i],
        ),
        first_problem(interface, library, slots, owners) is Some,
{
    verified_slots_lie_in_the_library(interface, library, slots.take(i), owners);
    assert(slots.take(i + 1).drop_last() =~= slots.take(i));
    assert(slots.take(i + 1).last() == slots[i]);
    first_problem_stays(interface, library, slots, owners, i + 1);
}

/// An answer that gives what was asked for: an interface, a slot in the library, a handle,
/// or the app that the session is for.
pub open spec fn is_favourable(stage: StageModel, reply: ReplyModel, library: Seq<u8>) -> bool {
    match reply {
        ReplyModel::Interface { given } => given,
        ReplyModel::Owner { path } => path matches Some(owner) && fs_path::same_path(
            owner,
            library,
        ),
        ReplyModel::Handle { value } => value != 0,
        ReplyModel::AppId { value } => stage matches StageModel::AppId { requested, .. } ==> value
            == requested,
        ReplyModel::Released => true,
    }
}

/// As long as Steam gives what it is asked for, the opening does not fail; and as soon as
/// it does not, the opening fails, without another question, once everything is given back.
pub proof fn refusals_alone_end_an_opening(
    stage: StageModel,
    reply: ReplyModel,
    app_id: Option<u32>,
    library: Seq<u8>,
)
    requires
        fits(stage, reply),
        stage !is ReleaseUser && stage !is ReleasePipe,
        stage matches StageModel::Slots { next } ==> next < client_slot_list().len(),
        stage matches StageModel::Check { getter, next, .. } ==> next < getter_slot_list(
            getter,
        ).len(),
    ensures
        ({
            let after = stage_after(stage, reply, app_id, library);
            let failing = after is ReleaseUser || after is ReleasePipe || after is Failed;
            failing <==> !is_favourable(stage, reply, library)
        }),
{
}

/// Why an opening ends, if it is about to.
pub open spec fn reason(stage: StageModel) -> Option<ErrorModel> {
    match stage {
        StageModel::ReleaseUser { error, .. } => Some(error),
        StageModel::ReleasePipe { error, .. } => Some(error),
        StageModel::Failed { error } => Some(error),
        _ => None,
    }
}

/// What an opening ends for says what Steam did not give: the client interface, a pipe, a
/// user, an interface by its name, or the app that was asked for, together with the one
/// that Steam takes this process for.
pub proof fn reasons_say_what_was_refused(
    pipe: i32,
    user: i32,
    getter: Getter,
    requested: u32,
    actual: u32,
    app_id: Option<u32>,
    library: Seq<u8>,
)
    ensures
        ({
            let no = ReplyModel::Interface { given: false };
            let none = ReplyModel::Handle { value: 0 };
            let named = ReplyModel::AppId { value: actual };
            let fetch = StageModel::Fetch { pipe, user, getter };
            let ask = StageModel::AppId { pipe, user, requested };
            &&& reason(stage_after(StageModel::Client, no, app_id, library)) == Some(
                ErrorModel::CreateInterface("SteamClient018"@),
            )
            &&& reason(stage_after(StageModel::Pipe, none, app_id, library)) == Some(
                ErrorModel::CreateSteamPipe,
            )
            &&& reason(stage_after(StageModel::User { pipe }, none, app_id, library)) == Some(
                ErrorModel::ConnectToGlobalUser,
            )
            &&& reason(stage_after(fetch, no, app_id, library)) == Some(
                ErrorModel::GetInterface(getter_label(getter)),
            )
            &&& requested != actual ==> reason(stage_after(ask, named, app_id, library)) == Some(
                ErrorModel::AppIdMismatch { requested, actual },
            )
        }),
{
}

/// Giving handles back changes nothing about why an opening ends.
pub proof fn reasons_are_kept(
    stage: StageModel,
    reply: ReplyModel,
    app_id: Option<u32>,
    library: Seq<u8>,
)
    requires
        reason(stage) is Some,
    ensures
        reason(stage_after(stage, reply, app_id, library)) == reason(stage),
{
}

/// Every interface is handed out by the slot that is called after it.
pub proof fn interfaces_are_handed_out_by_name(getter: Getter)
    ensures
        exists|i: int|
            0 <= i < client_slot_list().len() && (#[trigger] client_slot_list()[i]).index
                == getter_slot(getter) && client_slot_list()[i].name@ == "Get"@ + getter_label(
                getter,
            ),
        getter is Utils ==> getter_version(getter) == "SteamUtils005"@ && getter_label(getter)
            == "ISteamUtils"@,
        getter is User ==> getter_version(getter) == "SteamUser012"@ && getter_label(getter)
            == "ISteamUser"@,
        getter is UserStats ==> getter_version(getter) == "STEAMUSERSTATS_INTERFACE_VERSION013"@
            && getter_label(getter) == "ISteamUserStats"@,
        getter is Apps001 ==> getter_version(getter) == "STEAMAPPS_INTERFACE_VERSION001"@
            && getter_label(getter) == "ISteamApps"@,
        getter is Apps008 ==> getter_version(getter) == "STEAMAPPS_INTERFACE_VERSION008"@
            && getter_label(getter) == "ISteamApps"@,
{
    reveal_strlit("Get");
    reveal_strlit("ISteamUtils");
    reveal_strlit("ISteamUser");
    reveal_strlit("ISteamUserStats");
    reveal_strlit("ISteamApps");
    reveal_strlit("GetISteamUtils");
    reveal_strlit("GetISteamUser");
    reveal_strlit("GetISteamUserStats");
    reveal_strlit("GetISteamApps");
    let slots = client_slot_list();
    assert(slots[2].name@ =~= "Get"@ + "ISteamUserStats"@);
    assert(slots[3].name@ =~= "Get"@ + "ISteamApps"@);
    assert(slots[6].name@ =~= "Get"@ + "ISteamUser"@);
    assert(slots[7].name@ =~= "Get"@ + "ISteamUtils"@);
}

/// A value that Steam wrote into a buffer and ended with a NUL is read as it was written,
/// whatever else is in the buffer, and whether or not Steam counts the NUL.
pub proof fn written_values_are_read(s: Seq<char>, junk: Seq<u8>, written: int)
    requires
        s.len() > 0,
        text::without_nul(s),
        vstd::utf8::encode_utf8(s).len() <= written,
    ensures
        written_text(vstd::utf8::encode_utf8(s) + seq![0u8] + junk, written) == Some(s),
{
    let bytes = vstd::utf8::encode_utf8(s);
    let buffer = bytes + seq![0u8] + junk;
    let n = bytes.len() as int;
    vstd::utf8::encode_utf8_valid_utf8(s);
    vstd::utf8::encode_utf8_decode_utf8(s);
    crate::wire::encoded_has_no_nul(s);
    if n == 0 {
        assert(bytes =~= Seq::empty());
        assert(vstd::utf8::decode_utf8(bytes).len() == 0);
    }
    let limit = if written < buffer.len() {
        written
    } else {
        buffer.len() as int
    };
    let front = buffer.take(limit);
    vdf::nul_from_bounds(front, 0);
    let end = vdf::nul_from(front, 0);
    assert forall|i: int| 0 <= i < n implies front[i] != 0 by {
        assert(front[i] == bytes[i]);
    }
    if limit > n {
        assert(front[n] == 0);
        crate::wire::nul_from_is(front, 0, n);
    } else {
        assert(limit == n);
        if end < n {
            assert(front[end] != 0);
        }
    }
    assert(end == n);
    assert(front.take(end) =~= bytes);
}

/// What Steam did not write is not read: only the bytes that it says it wrote count, and
/// there is no value where it says it wrote none, or begins with a NUL.
pub proof fn only_what_was_written_is_read(a: Seq<u8>, b: Seq<u8>, written: int)
    ensures
        a.len() == b.len() && 0 <= written <= a.len() && a.take(written) == b.take(written)
            ==> written_text(a, written) == written_text(b, written),
        written <= 0 ==> written_text(a, written) is None,
        a.len() > 0 && a[0] == 0 ==> written_text(a, written) is None,
{
    if a.len() > 0 && a[0] == 0 && written > 0 {
        let limit = if written < a.len() {
            written
        } else {
            a.len() as int
        };
        let front = a.take(limit);
        assert(front[0] == 0);
        assert(vdf::nul_from(front, 0) == 0);
        assert(front.take(0) =~= Seq::empty());
        let none = Seq::<u8>::empty();
        assert(vstd::utf8::valid_utf8(none));
        assert(vstd::utf8::decode_utf8(none).len() == 0);
    }
}

} // verus!
