//! The game picker.
//!
//! This is the picker without its window: which games it lists, in which order,
//! and what each of its buttons does. Drawing it, asking Steam and downloading
//! the master list are the caller's.

use std::collections::VecDeque;
use vstd::prelude::*;

use crate::callbacks::CallbackEvent;
use crate::fs_path::FsPath;
use crate::library;
use crate::library::{GameEntry, GameModel, RemoteApp, RemoteModel, Source};
use crate::ordering;
use crate::text;

verus! {

/// Remote candidates to test for ownership per frame.
///
/// Each check is an IPC round trip to Steam, and the master list has tens of
/// thousands of entries, so this is spread across frames to keep the window
/// responsive instead of freezing for several seconds.
pub const OWNERSHIP_CHECKS_PER_FRAME: usize = 200;

/// What Steam and the file system say of an app. Of one that is not owned only
/// that needs to be known.
pub struct AppFacts {
    pub app_id: u32,
    pub owned: bool,
    /// Whether a schema is cached for it.
    pub has_schema: bool,
    /// Its name, where Steam has cached one.
    pub name: Option<String>,
    /// Where its capsule lies, where Steam has cached one.
    pub capsule_url: Option<String>,
}

/// What [`AppFacts`] say.
pub struct FactsModel {
    pub app_id: u32,
    pub owned: bool,
    pub has_schema: bool,
    pub name: Option<Seq<char>>,
    pub capsule_url: Option<Seq<char>>,
}

impl View for AppFacts {
    type V = FactsModel;

    open spec fn view(&self) -> FactsModel {
        FactsModel {
            app_id: self.app_id,
            owned: self.owned,
            has_schema: self.has_schema,
            name: text::optional(self.name),
            capsule_url: text::optional(self.capsule_url),
        }
    }
}

impl Clone for AppFacts {
    fn clone(&self) -> (r: Self)
        ensures
            r@ == self@,
    {
        AppFacts {
            app_id: self.app_id,
            owned: self.owned,
            has_schema: self.has_schema,
            name: match &self.name {
                Some(name) => Some(name.clone()),
                None => None,
            },
            capsule_url: match &self.capsule_url {
                Some(url) => Some(url.clone()),
                None => None,
            },
        }
    }
}

/// What a list of facts says.
pub open spec fn facts_models(list: Seq<AppFacts>) -> Seq<FactsModel> {
    list.map_values(|f: AppFacts| f@)
}

/// The game behind what is known of an app.
pub open spec fn game_of(facts: FactsModel, kind: Seq<char>, source: Source) -> GameModel {
    GameModel {
        app_id: facts.app_id,
        name: library::shown_name(facts.app_id, facts.name),
        capsule_url: facts.capsule_url,
        kind,
        source,
        has_schema: facts.has_schema,
    }
}

/// The games among apps that were found locally: those that are owned.
pub open spec fn local_games(found: Seq<FactsModel>) -> Seq<GameModel>
    decreases found.len(),
{
    if found.len() == 0 {
        Seq::empty()
    } else {
        let before = local_games(found.drop_last());
        let last = found.last();
        if last.owned {
            before.push(
                game_of(
                    last,
                    "normal"@,
                    if last.has_schema {
                        Source::CachedSchema
                    } else {
                        Source::Installed
                    },
                ),
            )
        } else {
            before
        }
    }
}

/// The picker.
pub struct PickerApp {
    pub games: Vec<GameEntry>,
    pub search: String,
    pub hide_without_schema: bool,
    pub add_id: String,
    pub status: String,
    pub error: Option<String>,
    /// Whether the master list is being downloaded.
    pub downloading: bool,
    pub pending_remote: VecDeque<RemoteApp>,
    pub remote_seen: usize,
    pub remote_total: usize,
}

/// What a [`PickerApp`] says.
pub struct PickerModel {
    pub games: Seq<GameModel>,
    pub search: Seq<char>,
    pub hide_without_schema: bool,
    pub add_id: Seq<char>,
    pub status: Seq<char>,
    pub error: Option<Seq<char>>,
    pub downloading: bool,
    pub pending_remote: Seq<RemoteModel>,
    pub remote_seen: nat,
    pub remote_total: nat,
}

impl View for PickerApp {
    type V = PickerModel;

    open spec fn view(&self) -> PickerModel {
        PickerModel {
            games: library::game_models(self.games@),
            search: self.search@,
            hide_without_schema: self.hide_without_schema,
            add_id: self.add_id@,
            status: self.status@,
            error: text::optional(self.error),
            downloading: self.downloading,
            pending_remote: library::remote_models(self.pending_remote@),
            remote_seen: self.remote_seen as nat,
            remote_total: self.remote_total as nat,
        }
    }
}

/// A picker in good order: every remote candidate was either looked at or is
/// still waiting.
pub open spec fn orderly(picker: PickerModel) -> bool {
    picker.remote_seen + picker.pending_remote.len() == picker.remote_total
}

/// The picker once local sources were scanned.
pub open spec fn rescanned(picker: PickerModel, found: Seq<FactsModel>) -> PickerModel {
    let games = ordering::tidied(local_games(found));
    PickerModel {
        games,
        status: text::decimal(games.len()) + " games found locally."@,
        ..picker
    }
}

/// A master list is being downloaded or worked through.
pub open spec fn is_scanning(picker: PickerModel) -> bool {
    picker.downloading || picker.pending_remote.len() > 0
}

/// The app is among the games.
pub open spec fn is_listed(games: Seq<GameModel>, app_id: u32) -> bool {
    exists|i: int| 0 <= i < games.len() && (#[trigger] games[i]).app_id == app_id
}

/// Where the first game of an app stands.
pub open spec fn first_listed(games: Seq<GameModel>, app_id: u32) -> Option<int>
    decreases games.len(),
{
    if games.len() == 0 {
        None
    } else {
        match first_listed(games.drop_last(), app_id) {
            Some(i) => Some(i),
            None => if games.last().app_id == app_id {
                Some(games.len() - 1)
            } else {
                None
            },
        }
    }
}

/// How many candidates to take, of no more than `left`, to come to one that is
/// not listed yet; and that one, if there is one.
pub open spec fn next_unlisted(
    games: Seq<GameModel>,
    waiting: Seq<RemoteModel>,
    left: nat,
) -> (nat, Option<RemoteModel>)
    decreases left,
{
    if left == 0 || waiting.len() == 0 {
        (0, None)
    } else if is_listed(games, waiting[0].app_id) {
        let (taken, found) = next_unlisted(games, waiting.skip(1), (left - 1) as nat);
        (taken + 1, found)
    } else {
        (1, Some(waiting[0]))
    }
}

/// One frame's share of the remote candidates.
pub struct Slice {
    /// How many may still be looked at.
    pub left: usize,
    /// Whether a game was added.
    pub added: bool,
}

/// The picker at the end of a frame's share.
pub open spec fn slice_finished(picker: PickerModel, added: bool) -> PickerModel {
    let games = if added {
        ordering::tidied(picker.games)
    } else {
        picker.games
    };
    PickerModel {
        games,
        status: if picker.pending_remote.len() == 0 {
            text::decimal(games.len()) + " games."@
        } else {
            "Checking ownership... "@ + text::decimal(picker.remote_seen) + "/"@ + text::decimal(
                picker.remote_total,
            ) + " ("@ + text::decimal(games.len()) + " games so far)"@
        },
        ..picker
    }
}

/// What to do about an app that the user wants to add.
#[derive(Debug, Clone, Copy, PartialEq, Eq, Structural)]
pub enum AddStep {
    /// Nothing more.
    Done,
    /// Find out about the app and hand it to [`PickerApp::add_described`].
    Describe,
}

/// What follows once it is known whether an app to add is owned: what the picker
/// says then, and what to do. An app that is listed already is searched for.
pub open spec fn add_answered(picker: PickerModel, app_id: u32, owned: bool) -> (
    PickerModel,
    AddStep,
) {
    if !owned {
        (
            PickerModel {
                error: Some("You do not own app "@ + text::decimal(app_id as nat) + "."@),
                ..picker
            },
            AddStep::Done,
        )
    } else if is_listed(picker.games, app_id) {
        (
            PickerModel {
                error: None,
                search: text::decimal(app_id as nat),
                add_id: Seq::empty(),
                ..picker
            },
            AddStep::Done,
        )
    } else {
        (picker, AddStep::Describe)
    }
}

/// A game that the picker shows: one that the search finds by name or app ID,
/// unless it has no schema and such games are hidden.
pub open spec fn is_match(picker: PickerModel, game: GameModel) -> bool {
    let needle = text::trimmed(picker.search);
    &&& !picker.hide_without_schema || game.has_schema
    &&& {
        ||| needle.len() == 0
        ||| text::occurs_in(text::lowered(game.name), text::lowered(needle))
        ||| text::occurs_in(text::decimal(game.app_id as nat), needle)
    }
}

/// The game behind what is known of an app.
pub fn describe_app(facts: AppFacts, kind: &str, source: Source) -> (r: GameEntry)
    ensures
        r@ == game_of(facts@, kind@, source),
{
    library::describe(
        facts.app_id,
        kind,
        source,
        facts.name,
        facts.capsule_url,
        facts.has_schema,
    )
}

impl PickerApp {
    /// A picker that lists what was found locally.
    pub fn new(found: &Vec<AppFacts>) -> (r: PickerApp)
        ensures
            r@ == rescanned(
                PickerModel {
                    games: Seq::empty(),
                    search: Seq::empty(),
                    hide_without_schema: true,
                    add_id: Seq::empty(),
                    status: Seq::empty(),
                    error: None,
                    downloading: false,
                    pending_remote: Seq::empty(),
                    remote_seen: 0,
                    remote_total: 0,
                },
                facts_models(found@),
            ),
            orderly(r@),
    {
        let mut app = PickerApp {
            games: Vec::new(),
            search: String::new(),
            hide_without_schema: true,
            add_id: String::new(),
            status: String::new(),
            error: None,
            downloading: false,
            pending_remote: VecDeque::new(),
            remote_seen: 0,
            remote_total: 0,
        };
        proof {
            assert(app@.games =~= Seq::<GameModel>::empty());
            assert(app@.pending_remote =~= Seq::<RemoteModel>::empty());
        }
        app.rescan_local(found);
        app
    }

    /// Rebuild the list from local sources only. Fast and offline.
    pub fn rescan_local(&mut self, found: &Vec<AppFacts>)
        ensures
            final(self)@ == rescanned(old(self)@, facts_models(found@)),
            orderly(old(self)@) ==> orderly(final(self)@),
    {
        let ghost before = self@;
        let ghost all = facts_models(found@);
        let mut games: Vec<GameEntry> = Vec::new();
        assert(library::game_models(games@) =~= local_games(all.take(0)));
        for i in 0..found.len()
            invariant
                all == facts_models(found@),
                library::game_models(games@) == local_games(all.take(i as int)),
        {
            let ghost was = library::game_models(games@);
            proof {
                assert(all.take(i + 1).drop_last() == all.take(i as int));
                assert(all.take(i + 1).last() == found@[i as int]@);
            }
            if found[i].owned {
                let source = if found[i].has_schema {
                    Source::CachedSchema
                } else {
                    Source::Installed
                };
                let game = describe_app(found[i].clone(), "normal", source);
                games.push(game);
                assert(library::game_models(games@) =~= was.push(game@));
            }
        }
        assert(all.take(all.len() as int) == all);
        self.games = ordering::tidy(&games);
        let mut status = String::new();
        text::push_decimal(&mut status, self.games.len() as u64);
        status.append(" games found locally.");
        self.status = status;
        assert(self@.status =~= rescanned(before, all).status);
    }

    /// Begins to look for more games in the master list. False where that is
    /// under way already; else the caller downloads the list.
    pub fn start_remote_scan(&mut self) -> (r: bool)
        ensures
            r == !is_scanning(old(self)@),
            final(self)@ == if r {
                PickerModel {
                    error: None,
                    status: "Downloading the full game list..."@,
                    downloading: true,
                    ..old(self)@
                }
            } else {
                old(self)@
            },
    {
        if self.downloading || self.pending_remote.len() > 0 {
            return false;
        }
        self.error = None;
        self.status = "Downloading the full game list...".to_owned();
        self.downloading = true;
        true
    }

    /// Takes the master list, or why there is none.
    pub fn remote_arrived(&mut self, list: Result<VecDeque<RemoteApp>, String>)
        ensures
            final(self)@ == match list {
                Ok(apps) => PickerModel {
                    remote_total: apps@.len(),
                    remote_seen: 0,
                    pending_remote: library::remote_models(apps@),
                    downloading: false,
                    ..old(self)@
                },
                Err(message) => PickerModel {
                    error: Some(message@),
                    status: "Showing locally discovered games."@,
                    downloading: false,
                    ..old(self)@
                },
            },
            orderly(old(self)@) ==> orderly(final(self)@),
    {
        match list {
            Ok(apps) => {
                self.remote_total = apps.len();
                self.remote_seen = 0;
                self.pending_remote = apps;
            },
            Err(message) => {
                self.error = Some(message);
                self.status = "Showing locally discovered games.".to_owned();
            },
        }
        self.downloading = false;
    }

    /// Gives up on a download that came to nothing.
    pub fn remote_lost(&mut self)
        ensures
            final(self)@ == (PickerModel { downloading: false, ..old(self)@ }),
    {
        self.downloading = false;
    }

    fn lists(&self, app_id: u32) -> (r: bool)
        ensures
            r == is_listed(self@.games, app_id),
    {
        for i in 0..self.games.len()
            invariant
                forall|k: int| 0 <= k < i ==> (#[trigger] self.games@[k]).app_id != app_id,
        {
            if self.games[i].app_id == app_id {
                assert(self@.games[i as int].app_id == app_id);
                return true;
            }
        }
        assert forall|k: int| 0 <= k < self@.games.len() implies (
        #[trigger] self@.games[k]).app_id != app_id by {
            assert(self@.games[k] == self.games@[k]@);
        }
        false
    }

    /// Begins a frame's share of the remote candidates, if any are waiting. The
    /// list is worked through a slice at a time so the UI keeps painting.
    pub fn begin_slice(&self) -> (r: Option<Slice>)
        ensures
            match r {
                Some(slice) => self@.pending_remote.len() > 0 && slice.left
                    == OWNERSHIP_CHECKS_PER_FRAME && !slice.added,
                None => self@.pending_remote.len() == 0,
            },
    {
        if self.pending_remote.len() == 0 {
            None
        } else {
            Some(Slice { left: OWNERSHIP_CHECKS_PER_FRAME, added: false })
        }
    }

    /// The next candidate to ask Steam about, within a frame's share. Candidates
    /// that are listed already are passed over.
    pub fn next_candidate(&mut self, slice: &mut Slice) -> (r: Option<RemoteApp>)
        requires
            orderly(old(self)@),
        ensures
            ({
                let (taken, found) = next_unlisted(
                    old(self)@.games,
                    old(self)@.pending_remote,
                    old(slice).left as nat,
                );
                &&& final(self)@ == (PickerModel {
                    pending_remote: old(self)@.pending_remote.skip(taken as int),
                    remote_seen: old(self)@.remote_seen + taken,
                    ..old(self)@
                })
                &&& final(slice).left == old(slice).left - taken
                &&& final(slice).added == old(slice).added
                &&& match found {
                    Some(candidate) => r matches Some(app) && app@ == candidate,
                    None => r is None,
                }
            }),
            orderly(final(self)@),
    {
        let ghost before = self@;
        let ghost room = slice.left as nat;
        let ghost whole = next_unlisted(before.games, before.pending_remote, room);
        let ghost mut taken: nat = 0;
        assert(before.pending_remote.skip(0) =~= before.pending_remote);
        while slice.left > 0
            invariant
                before == old(self)@,
                room == old(slice).left,
                orderly(before),
                orderly(self@),
                taken <= before.pending_remote.len(),
                taken <= room,
                slice.left == room - taken,
                slice.added == old(slice).added,
                self@ == (PickerModel {
                    pending_remote: before.pending_remote.skip(taken as int),
                    remote_seen: before.remote_seen + taken,
                    ..before
                }),
                whole == next_unlisted(before.games, before.pending_remote, room),
                whole == ({
                    let (n, found) = next_unlisted(
                        before.games,
                        before.pending_remote.skip(taken as int),
                        (room - taken) as nat,
                    );
                    ((n + taken) as nat, found)
                }),
            decreases slice.left,
        {
            let ghost was = self@;
            let candidate = match self.pending_remote.pop_front() {
                Some(candidate) => candidate,
                None => {
                    assert(was.pending_remote.len() == 0);
                    assert(self@.pending_remote =~= was.pending_remote);
                    return None;
                },
            };
            proof {
                assert(was.pending_remote[0] == candidate@);
                assert(self@.pending_remote =~= was.pending_remote.skip(1));
                assert(was.pending_remote.skip(1) =~= before.pending_remote.skip(
                    (taken + 1) as int,
                ));
            }
            self.remote_seen = self.remote_seen + 1;
            slice.left = slice.left - 1;
            if !self.lists(candidate.app_id) {
                return Some(candidate);
            }
            proof {
                taken = taken + 1;
            }
        }
        None
    }

    /// Adds a remote candidate, where it turned out to be owned.
    pub fn add_candidate(&mut self, slice: &mut Slice, facts: AppFacts, kind: &str)
        ensures
            final(self)@ == if facts.owned {
                PickerModel {
                    games: old(self)@.games.push(game_of(facts@, kind@, Source::Remote)),
                    ..old(self)@
                }
            } else {
                old(self)@
            },
            final(slice).left == old(slice).left,
            final(slice).added == (old(slice).added || facts.owned),
    {
        let ghost before = self@;
        if facts.owned {
            let game = describe_app(facts, kind, Source::Remote);
            self.games.push(game);
            assert(self@.games =~= before.games.push(game@));
            slice.added = true;
        }
    }

    fn sort_games(&mut self)
        ensures
            final(self)@ == (PickerModel {
                games: ordering::tidied(old(self)@.games),
                ..old(self)@
            }),
    {
        self.games = ordering::tidy(&self.games);
    }

    /// Ends a frame's share of the remote candidates.
    pub fn finish_slice(&mut self, slice: Slice)
        ensures
            final(self)@ == slice_finished(old(self)@, slice.added),
            orderly(old(self)@) ==> orderly(final(self)@),
    {
        let ghost before = self@;
        if slice.added {
            self.sort_games();
        }
        let mut status = String::new();
        if self.pending_remote.len() == 0 {
            text::push_decimal(&mut status, self.games.len() as u64);
            status.append(" games.");
        } else {
            status.append("Checking ownership... ");
            text::push_decimal(&mut status, self.remote_seen as u64);
            status.append("/");
            text::push_decimal(&mut status, self.remote_total as u64);
            status.append(" (");
            text::push_decimal(&mut status, self.games.len() as u64);
            status.append(" games so far)");
        }
        self.status = status;
        assert(self@.status =~= slice_finished(before, slice.added).status);
    }

    /// Which game to describe anew after a callback, if any. Names and capsules
    /// arrive asynchronously.
    pub fn on_event(&self, event: CallbackEvent) -> (r: Option<usize>)
        ensures
            match event {
                CallbackEvent::AppDataChanged { app_id, result: true } => match first_listed(
                    self@.games,
                    app_id,
                ) {
                    Some(i) => r matches Some(k) && k == i && k < self@.games.len(),
                    None => r is None,
                },
                _ => r is None,
            },
    {
        let app_id = match event {
            CallbackEvent::AppDataChanged { app_id, result: true } => app_id,
            _ => {
                return None;
            },
        };
        let ghost list = self@.games;
        for i in 0..self.games.len()
            invariant
                event == (CallbackEvent::AppDataChanged { app_id, result: true }),
                list == self@.games,
                first_listed(list.take(i as int), app_id) is None,
        {
            proof {
                assert(list.take(i + 1).drop_last() == list.take(i as int));
                assert(list.take(i + 1).last() == self.games@[i as int]@);
            }
            if self.games[i].app_id == app_id {
                proof {
                    first_listed_stays(list, app_id, i + 1);
                }
                return Some(i);
            }
        }
        assert(list.take(list.len() as int) == list);
        None
    }

    /// Describes a listed game anew. Which app it is, what kind it is and where it
    /// came from stay as they are.
    pub fn refresh(&mut self, index: usize, facts: AppFacts)
        requires
            index < old(self)@.games.len(),
            facts.app_id == old(self)@.games[index as int].app_id,
        ensures
            final(self)@ == (PickerModel {
                games: old(self)@.games.update(
                    index as int,
                    game_of(
                        facts@,
                        old(self)@.games[index as int].kind,
                        old(self)@.games[index as int].source,
                    ),
                ),
                ..old(self)@
            }),
    {
        let ghost before = self@;
        let kind = self.games[index].kind.clone();
        let source = self.games[index].source;
        let game = describe_app(facts, kind.as_str(), source);
        self.games.set(index, game);
        assert(self@.games =~= before.games.update(index as int, game@));
    }

    /// The app that the user wants to add. None where what was typed is no app
    /// ID; else the caller finds out whether the app is owned and hands that to
    /// [`PickerApp::add_owned`].
    pub fn add_by_id(&mut self) -> (r: Option<u32>)
        ensures
            match text::read_u32(text::trimmed(old(self)@.add_id)) {
                Some(id) => r == Some(id as u32) && final(self)@ == old(self)@,
                None => r is None && final(self)@ == (PickerModel {
                    error: Some(
                        "'"@ + text::trimmed(old(self)@.add_id) + "' is not a valid app ID."@,
                    ),
                    ..old(self)@
                }),
            },
    {
        let typed = text::trim(self.add_id.as_str());
        match text::parse_u32(typed.as_str()) {
            Some(app_id) => Some(app_id),
            None => {
                let mut words = "'".to_owned();
                words.append(typed.as_str());
                words.append("' is not a valid app ID.");
                self.error = Some(words);
                None
            },
        }
    }

    /// Takes whether an app to add is owned.
    pub fn add_owned(&mut self, app_id: u32, owned: bool) -> (r: AddStep)
        ensures
            (final(self)@, r) == add_answered(old(self)@, app_id, owned),
    {
        if !owned {
            let mut words = "You do not own app ".to_owned();
            text::push_decimal(&mut words, app_id as u64);
            words.append(".");
            self.error = Some(words);
            return AddStep::Done;
        }
        if self.lists(app_id) {
            self.error = None;
            self.search = text::decimal_text(app_id as u64);
            self.add_id = String::new();
            return AddStep::Done;
        }
        AddStep::Describe
    }

    /// Adds an owned app that is not listed yet.
    pub fn add_described(&mut self, facts: AppFacts)
        ensures
            final(self)@ == (PickerModel {
                games: ordering::tidied(
                    old(self)@.games.push(game_of(facts@, "normal"@, Source::Remote)),
                ),
                error: None,
                add_id: Seq::empty(),
                ..old(self)@
            }),
    {
        let ghost before = self@;
        let game = describe_app(facts, "normal", Source::Remote);
        self.games.push(game);
        assert(self@.games =~= before.games.push(game@));
        self.sort_games();
        self.error = None;
        self.add_id = String::new();
    }

    /// Whether the picker shows a game.
    pub fn matches(&self, game: &GameEntry) -> (r: bool)
        ensures
            r == is_match(self@, game@),
    {
        if self.hide_without_schema && !game.has_schema {
            return false;
        }
        let needle = text::trim(self.search.as_str());
        if needle.as_str().is_empty() {
            return true;
        }
        let lowered = text::to_lowercase(needle.as_str());
        text::contains(text::to_lowercase(game.name.as_str()).as_str(), lowered.as_str())
            || text::contains(text::decimal_text(game.app_id as u64).as_str(), needle.as_str())
    }

    /// Where the games stand that are shown, in order.
    pub fn visible_games(&self) -> (r: Vec<usize>)
        ensures
            forall|i: int, j: int| 0 <= i < j < r@.len() ==> r@[i] < r@[j],
            forall|k: usize|
                r@.contains(k) <==> k < self@.games.len() && is_match(
                    self@,
                    self@.games[k as int],
                ),
    {
        let mut r: Vec<usize> = Vec::new();
        for i in 0..self.games.len()
            invariant
                self@.games.len() == self.games@.len(),
                forall|a: int, b: int| 0 <= a < b < r@.len() ==> r@[a] < r@[b],
                forall|a: int| 0 <= a < r@.len() ==> r@[a] < i,
                forall|k: usize|
                    r@.contains(k) <==> k < i && is_match(self@, self@.games[k as int]),
        {
            let ghost was = r@;
            assert(self@.games[i as int] == self.games@[i as int]@);
            if self.matches(&self.games[i]) {
                r.push(i);
                assert forall|k: usize| r@.contains(k) <==> k < i + 1 && is_match(
                    self@,
                    self@.games[k as int],
                ) by {
                    if was.contains(k) {
                        let a = was.index_of(k);
                        assert(r@[a] == k);
                    }
                    assert(r@[was.len() as int] == i);
                    if r@.contains(k) && k != i {
                        let a = r@.index_of(k);
                        assert(was[a] == k);
                    }
                }
            }
        }
        r
    }

    /// What to say in place of the games, where none is shown.
    pub fn games_message(&self, visible: usize) -> (r: Option<&'static str>)
        ensures
            if visible > 0 {
                r is None
            } else if self@.games.len() == 0 {
                r matches Some(s) && s@
                    == "No games found. Try \"Find more…\" to search your whole library."@
            } else {
                r matches Some(s) && s@ == "No games match the current filter."@
            },
    {
        if visible > 0 {
            None
        } else if self.games.len() == 0 {
            Some("No games found. Try \"Find more…\" to search your whole library.")
        } else {
            Some("No games match the current filter.")
        }
    }

    /// Whether a master list is being downloaded or worked through.
    pub fn scanning(&self) -> (r: bool)
        ensures
            r == is_scanning(self@),
    {
        self.downloading || self.pending_remote.len() > 0
    }

    /// Whether to draw again soon, given how many pictures are on their way.
    pub fn needs_repaint(&self, outstanding: usize) -> (r: bool)
        ensures
            r == (is_scanning(self@) || outstanding > 0),
    {
        self.scanning() || outstanding > 0
    }

    /// Takes the outcome of opening an editor.
    pub fn editor_opened(&mut self, outcome: Result<(), OpenFailure>)
        ensures
            final(self)@ == (PickerModel {
                error: match outcome {
                    Ok(()) => None,
                    Err(failure) => Some(failure_words(failure@)),
                },
                ..old(self)@
            }),
    {
        self.error = match outcome {
            Ok(()) => None,
            Err(failure) => Some(failure.message()),
        };
    }
}

proof fn first_listed_stays(games: Seq<GameModel>, app_id: u32, n: int)
    requires
        0 <= n <= games.len(),
        first_listed(games.take(n), app_id) is Some,
    ensures
        first_listed(games, app_id) == first_listed(games.take(n), app_id),
    decreases games.len() - n,
{
    if n < games.len() {
        assert(games.take(n + 1).drop_last() == games.take(n));
        first_listed_stays(games, app_id, n + 1);
    } else {
        assert(games.take(n) == games);
    }
}

/// What a game's card says below its capsule.
pub struct Card {
    pub name: String,
    pub id: String,
    /// Said of a game without a schema.
    pub warning: Option<&'static str>,
}

/// What a game's card says below its capsule.
pub fn game_card(game: &GameEntry) -> (r: Card)
    ensures
        r.name@ == game@.name,
        r.id@ == text::decimal(game@.app_id as nat),
        if game@.has_schema {
            r.warning is None
        } else {
            r.warning matches Some(s) && s@ == "no schema"@
        },
{
    Card {
        name: game.name.clone(),
        id: text::decimal_text(game.app_id as u64),
        warning: if game.has_schema {
            None
        } else {
            Some("no schema")
        },
    }
}

/// Why an editor could not be opened.
pub enum OpenFailure {
    /// This program's own file is not known, in the operating system's words.
    NoProgram(String),
    /// The new process did not start, in the operating system's words.
    NotStarted(String),
}

/// What an [`OpenFailure`] says.
pub enum FailureModel {
    NoProgram(Seq<char>),
    NotStarted(Seq<char>),
}

impl View for OpenFailure {
    type V = FailureModel;

    open spec fn view(&self) -> FailureModel {
        match *self {
            OpenFailure::NoProgram(words) => FailureModel::NoProgram(words@),
            OpenFailure::NotStarted(words) => FailureModel::NotStarted(words@),
        }
    }
}

/// What a failure to open an editor says in words.
pub open spec fn failure_words(failure: FailureModel) -> Seq<char> {
    match failure {
        FailureModel::NoProgram(words) => "Could not locate this executable: "@ + words,
        FailureModel::NotStarted(words) => "Could not open the editor: "@ + words,
    }
}

impl OpenFailure {
    /// The failure in words.
    pub fn message(&self) -> (r: String)
        ensures
            r@ == failure_words(self@),
    {
        match self {
            OpenFailure::NoProgram(words) => {
                let mut s = "Could not locate this executable: ".to_owned();
                s.append(words.as_str());
                s
            },
            OpenFailure::NotStarted(words) => {
                let mut s = "Could not open the editor: ".to_owned();
                s.append(words.as_str());
                s
            },
        }
    }
}

/// The program to run for an editor. Inside an AppImage that is the image
/// itself, because this program's own file lies in a mount that is torn down
/// when the launching process exits.
pub fn editor_program(appimage: Option<FsPath>, own: Result<FsPath, String>) -> (r: Result<
    FsPath,
    OpenFailure,
>)
    ensures
        match appimage {
            Some(image) if image@.len() > 0 => r matches Ok(program) && program@ == image@,
            _ => match own {
                Ok(path) => r matches Ok(program) && program@ == path@,
                Err(words) => r matches Err(e) && e@ == FailureModel::NoProgram(words@),
            },
        },
{
    if let Some(image) = appimage {
        if !image.is_empty() {
            return Ok(image);
        }
    }
    match own {
        Ok(path) => Ok(path),
        Err(words) => Err(OpenFailure::NoProgram(words)),
    }
}

/// What to hand to the program that edits an app.
pub open spec fn editor_words(app_id: u32) -> Seq<Seq<char>> {
    seq!["--app"@, text::decimal(app_id as nat)]
}

/// What to hand to the program that edits an app.
pub fn editor_arguments(app_id: u32) -> (r: Vec<String>)
    ensures
        text::texts_of(r@) == editor_words(app_id),
{
    let mut r: Vec<String> = Vec::new();
    r.push("--app".to_owned());
    r.push(text::decimal_text(app_id as u64));
    assert(text::texts_of(r@) =~= editor_words(app_id));
    r
}

/// No app is among those that were found twice.
pub open spec fn found_differ(found: Seq<FactsModel>) -> bool {
    forall|i: int, j: int| 0 <= i < j < found.len() ==> found[i].app_id != found[j].app_id
}

/// The app is among those that were found, and is owned.
pub open spec fn is_owned(found: Seq<FactsModel>, app_id: u32) -> bool {
    exists|i: int|
        0 <= i < found.len() && (#[trigger] found[i]).app_id == app_id && found[i].owned
}

proof fn local_games_are_owned(found: Seq<FactsModel>)
    requires
        found_differ(found),
    ensures
        ordering::ids_differ(local_games(found)),
        forall|id: u32| is_listed(local_games(found), id) <==> is_owned(found, id),
    decreases found.len(),
{
    let games = local_games(found);
    if found.len() > 0 {
        let shorter = found.drop_last();
        let last = found.last();
        assert forall|i: int, j: int| 0 <= i < j < shorter.len() implies shorter[i].app_id
            != shorter[j].app_id by {
            assert(shorter[i] == found[i] && shorter[j] == found[j]);
        }
        local_games_are_owned(shorter);
        let before = local_games(shorter);
        assert forall|i: int| 0 <= i < before.len() implies (#[trigger] before[i]).app_id
            != last.app_id by {
            assert(is_listed(before, before[i].app_id));
            assert(is_owned(shorter, before[i].app_id));
            let k = choose|k: int|
                0 <= k < shorter.len() && (#[trigger] shorter[k]).app_id == before[i].app_id
                    && shorter[k].owned;
            assert(found[k] == shorter[k]);
            assert(found[found.len() - 1] == last);
        }
        assert forall|id: u32| is_listed(games, id) <==> is_owned(found, id) by {
            if is_owned(found, id) {
                let k = choose|k: int|
                    0 <= k < found.len() && (#[trigger] found[k]).app_id == id && found[k].owned;
                if k < shorter.len() {
                    assert(shorter[k].owned && shorter[k].app_id == id);
                    assert(is_owned(shorter, id));
                    assert(is_listed(before, id));
                    let m = choose|m: int|
                        0 <= m < before.len() && (#[trigger] before[m]).app_id == id;
                    assert(games[m] == before[m]);
                } else {
                    assert(games[games.len() - 1].app_id == id);
                }
            }
            if is_listed(games, id) {
                let m = choose|m: int| 0 <= m < games.len() && (#[trigger] games[m]).app_id == id;
                if m < before.len() {
                    assert(games[m] == before[m]);
                    assert(is_listed(before, id));
                    assert(is_owned(shorter, id));
                    let k = choose|k: int|
                        0 <= k < shorter.len() && (#[trigger] shorter[k]).app_id == id
                            && shorter[k].owned;
                    assert(found[k] == shorter[k]);
                } else {
                    assert(found[found.len() - 1].owned);
                    assert(found[found.len() - 1].app_id == id);
                }
            }
        }
    }
}

proof fn ordering_keeps_listed(games: Seq<GameModel>, app_id: u32)
    ensures
        is_listed(ordering::by_name(games), app_id) <==> is_listed(games, app_id),
{
    broadcast use vstd::seq_lib::group_to_multiset_ensures;

    let ordered = ordering::by_name(games);
    ordering::by_name_keeps_games(games);
    if is_listed(games, app_id) {
        let i = choose|i: int| 0 <= i < games.len() && (#[trigger] games[i]).app_id == app_id;
        assert(games.contains(games[i]));
        assert(ordered.to_multiset().count(games[i]) > 0);
        assert(ordered.contains(games[i]));
        let k = ordered.index_of(games[i]);
        assert(ordered[k].app_id == app_id);
    }
    if is_listed(ordered, app_id) {
        let i = choose|i: int| 0 <= i < ordered.len() && (#[trigger] ordered[i]).app_id == app_id;
        assert(ordered.contains(ordered[i]));
        assert(games.to_multiset().count(ordered[i]) > 0);
        assert(games.contains(ordered[i]));
        let k = games.index_of(ordered[i]);
        assert(games[k].app_id == app_id);
    }
}

/// After a local scan exactly the owned apps among those that were found are
/// listed, each of them once.
pub proof fn scan_lists_owned_games_once(picker: PickerModel, found: Seq<FactsModel>)
    requires
        found_differ(found),
    ensures
        ordering::ids_differ(rescanned(picker, found).games),
        forall|id: u32| is_listed(rescanned(picker, found).games, id) <==> is_owned(found, id),
{
    let games = local_games(found);
    local_games_are_owned(found);
    ordering::tidying_keeps_different_games(games);
    assert forall|id: u32|
        is_listed(rescanned(picker, found).games, id) <==> is_owned(found, id) by {
        ordering_keeps_listed(games, id);
    }
}

/// A candidate that Steam is asked about is not listed yet, no more candidates
/// are taken than are allowed or waiting, and none is passed over for nothing.
pub proof fn candidates_are_new(games: Seq<GameModel>, waiting: Seq<RemoteModel>, left: nat)
    ensures
        ({
            let (taken, found) = next_unlisted(games, waiting, left);
            &&& taken <= left
            &&& taken <= waiting.len()
            &&& left > 0 && waiting.len() > 0 ==> taken > 0
            &&& match found {
                Some(candidate) => taken > 0 && candidate == waiting[taken - 1] && !is_listed(
                    games,
                    candidate.app_id,
                ) && forall|i: int|
                    0 <= i < taken - 1 ==> is_listed(games, (#[trigger] waiting[i]).app_id),
                None => forall|i: int|
                    0 <= i < taken ==> is_listed(games, (#[trigger] waiting[i]).app_id),
            }
        }),
    decreases left,
{
    if left > 0 && waiting.len() > 0 && is_listed(games, waiting[0].app_id) {
        let rest = waiting.skip(1);
        candidates_are_new(games, rest, (left - 1) as nat);
        let (taken, found) = next_unlisted(games, waiting, left);
        assert forall|i: int|
            0 <= i < taken && (found is Some ==> i < taken - 1) implies is_listed(
            games,
            (#[trigger] waiting[i]).app_id,
        ) by {
            if i > 0 {
                assert(rest[i - 1] == waiting[i]);
            }
        }
    }
}

/// Adding a game that is not listed yet lists no game twice.
pub proof fn adding_lists_no_game_twice(games: Seq<GameModel>, game: GameModel)
    requires
        ordering::ids_differ(games),
        !is_listed(games, game.app_id),
    ensures
        ordering::ids_differ(games.push(game)),
        ordering::ids_differ(ordering::tidied(games.push(game))),
        is_listed(ordering::tidied(games.push(game)), game.app_id),
{
    let more = games.push(game);
    assert(ordering::ids_differ(more));
    ordering::tidying_keeps_different_games(more);
    assert(more[games.len() as int].app_id == game.app_id);
    ordering_keeps_listed(more, game.app_id);
}

/// A frame's share of the remote candidates as a whole, where `facts` says of each
/// app what Steam and the file system do: the games at its end before they are
/// put in order, how many candidates it takes, and whether a game was added.
pub open spec fn share(
    games: Seq<GameModel>,
    waiting: Seq<RemoteModel>,
    left: nat,
    facts: spec_fn(u32) -> FactsModel,
) -> (Seq<GameModel>, nat, bool)
    decreases left,
{
    let (taken, found) = next_unlisted(games, waiting, left);
    match found {
        None => (games, taken, false),
        Some(candidate) => {
            proof {
                candidates_are_new(games, waiting, left);
            }
            let known = facts(candidate.app_id);
            let now = if known.owned {
                games.push(game_of(known, candidate.kind, Source::Remote))
            } else {
                games
            };
            let (after, more, added) = share(
                now,
                waiting.skip(taken as int),
                (left - taken) as nat,
                facts,
            );
            (after, taken + more, known.owned || added)
        },
    }
}

/// An app is among the first candidates.
pub open spec fn is_waiting(waiting: Seq<RemoteModel>, count: nat, app_id: u32) -> bool {
    exists|i: int| 0 <= i < count && i < waiting.len() && (#[trigger] waiting[i]).app_id == app_id
}

/// The search for a candidate that is not listed goes on to the end of the share.
proof fn search_uses_the_share(games: Seq<GameModel>, waiting: Seq<RemoteModel>, left: nat)
    ensures
        next_unlisted(games, waiting, left).1 is None ==> next_unlisted(games, waiting, left).0
            == if left < waiting.len() {
            left
        } else {
            waiting.len()
        },
    decreases left,
{
    if left > 0 && waiting.len() > 0 {
        search_uses_the_share(games, waiting.skip(1), (left - 1) as nat);
    }
}

proof fn share_lists(
    games: Seq<GameModel>,
    waiting: Seq<RemoteModel>,
    left: nat,
    facts: spec_fn(u32) -> FactsModel,
)
    requires
        ordering::ids_differ(games),
        forall|id: u32| (#[trigger] facts(id)).app_id == id,
    ensures
        ({
            let (after, taken, added) = share(games, waiting, left, facts);
            &&& taken == if left < waiting.len() {
                left
            } else {
                waiting.len()
            }
            &&& ordering::ids_differ(after)
            &&& forall|id: u32|
                #![trigger is_listed(after, id)]
                is_listed(after, id) <==> is_listed(games, id) || facts(id).owned && is_waiting(
                    waiting,
                    taken,
                    id,
                )
            &&& !added ==> after == games
        }),
    decreases left,
{
    candidates_are_new(games, waiting, left);
    search_uses_the_share(games, waiting, left);
    let (first, found) = next_unlisted(games, waiting, left);
    let (after, taken, added) = share(games, waiting, left, facts);
    match found {
        None => {
            assert forall|id: u32|
                #![trigger is_listed(after, id)]
                is_listed(after, id) <==> is_listed(games, id) || facts(id).owned && is_waiting(
                waiting,
                taken,
                id,
            ) by {
                if is_waiting(waiting, taken, id) {
                    let i = choose|i: int|
                        0 <= i < taken && i < waiting.len() && (
                        #[trigger] waiting[i]).app_id == id;
                    assert(is_listed(games, waiting[i].app_id));
                }
            }
        },
        Some(candidate) => {
            let known = facts(candidate.app_id);
            let game = game_of(known, candidate.kind, Source::Remote);
            let now = if known.owned {
                games.push(game)
            } else {
                games
            };
            let rest = waiting.skip(first as int);
            assert(candidate == waiting[first - 1]);
            if known.owned {
                adding_lists_no_game_twice(games, game);
            }
            share_lists(now, rest, (left - first) as nat, facts);
            let more = share(now, rest, (left - first) as nat, facts).1;
            assert forall|id: u32|
                #![trigger is_listed(after, id)]
                is_listed(after, id) <==> is_listed(games, id) || facts(id).owned && is_waiting(
                waiting,
                taken,
                id,
            ) by {
                if known.owned {
                    push_lists(games, game, id);
                }
                if is_waiting(rest, more, id) {
                    let i = choose|i: int|
                        0 <= i < more && i < rest.len() && (#[trigger] rest[i]).app_id == id;
                    assert(waiting[first + i] == rest[i]);
                }
                if is_waiting(waiting, taken, id) {
                    let i = choose|i: int|
                        0 <= i < taken && i < waiting.len() && (
                        #[trigger] waiting[i]).app_id == id;
                    if i < first - 1 {
                        assert(is_listed(games, waiting[i].app_id));
                    } else if i >= first {
                        assert(rest[i - first] == waiting[i]);
                    }
                }
                if id == candidate.app_id {
                    assert(waiting[first - 1].app_id == id);
                    assert(is_waiting(waiting, taken, id));
                }
            }
        },
    }
}

proof fn push_lists(games: Seq<GameModel>, game: GameModel, id: u32)
    ensures
        is_listed(games.push(game), id) <==> is_listed(games, id) || game.app_id == id,
{
    let more = games.push(game);
    if is_listed(games, id) {
        let i = choose|i: int| 0 <= i < games.len() && (#[trigger] games[i]).app_id == id;
        assert(more[i] == games[i]);
    }
    assert(more[games.len() as int] == game);
    if is_listed(more, id) {
        let i = choose|i: int| 0 <= i < more.len() && (#[trigger] more[i]).app_id == id;
        if i < games.len() {
            assert(games[i] == more[i]);
        }
    }
}

/// One whole share of the remote scan lists no game twice, keeps every game that
/// was listed, adds exactly the owned apps among the candidates that it takes, and
/// takes as many as it may.
pub proof fn a_share_adds_owned_games_once(
    picker: PickerModel,
    left: nat,
    facts: spec_fn(u32) -> FactsModel,
)
    requires
        ordering::ids_differ(picker.games),
        forall|id: u32| (#[trigger] facts(id)).app_id == id,
    ensures
        ({
            let (games, taken, added) = share(picker.games, picker.pending_remote, left, facts);
            let after = slice_finished(
                PickerModel {
                    games,
                    pending_remote: picker.pending_remote.skip(taken as int),
                    remote_seen: picker.remote_seen + taken,
                    ..picker
                },
                added,
            );
            &&& ordering::ids_differ(after.games)
            &&& forall|id: u32|
                #![trigger is_listed(after.games, id)]
                is_listed(after.games, id) <==> is_listed(picker.games, id) || facts(id).owned
                    && is_waiting(picker.pending_remote, taken, id)
            &&& taken == if left < picker.pending_remote.len() {
                left
            } else {
                picker.pending_remote.len()
            }
            &&& orderly(picker) ==> orderly(after)
        }),
{
    let (games, taken, added) = share(picker.games, picker.pending_remote, left, facts);
    share_lists(picker.games, picker.pending_remote, left, facts);
    ordering::tidying_keeps_different_games(games);
    let tidy = ordering::tidied(games);
    assert forall|id: u32| #![trigger is_listed(tidy, id)] is_listed(tidy, id) <==> is_listed(
        games,
        id,
    ) by {
        ordering_keeps_listed(games, id);
    }
}

/// A game is found where the text that is searched for stands anywhere in its name,
/// whatever the case of either and whatever white space is typed around it, unless it
/// has no schema and such games are hidden.
pub proof fn names_are_found_anywhere(
    picker: PickerModel,
    game: GameModel,
    front: Seq<char>,
    words: Seq<char>,
    back: Seq<char>,
    a: Seq<char>,
    b: Seq<char>,
)
    requires
        picker.search == front + words + back,
        forall|i: int| 0 <= i < front.len() ==> text::is_white(#[trigger] front[i]),
        forall|i: int| 0 <= i < back.len() ==> text::is_white(#[trigger] back[i]),
        words.len() > 0 ==> !text::is_white(words[0]) && !text::is_white(words[words.len() - 1]),
        game.has_schema || !picker.hide_without_schema,
        text::lowered(game.name) == a + text::lowered(words) + b,
    ensures
        is_match(picker, game),
{
    text::white_space_at_the_ends_is_cut(front, words, back);
    text::occurring_is_standing_between(text::lowered(game.name), text::lowered(words));
}

/// A game is found where the digits that are searched for stand anywhere in its app ID.
pub proof fn ids_are_found_anywhere(
    picker: PickerModel,
    game: GameModel,
    front: Seq<char>,
    words: Seq<char>,
    back: Seq<char>,
    a: Seq<char>,
    b: Seq<char>,
)
    requires
        picker.search == front + words + back,
        forall|i: int| 0 <= i < front.len() ==> text::is_white(#[trigger] front[i]),
        forall|i: int| 0 <= i < back.len() ==> text::is_white(#[trigger] back[i]),
        words.len() > 0 ==> !text::is_white(words[0]) && !text::is_white(words[words.len() - 1]),
        game.has_schema || !picker.hide_without_schema,
        text::decimal(game.app_id as nat) == a + words + b,
    ensures
        is_match(picker, game),
{
    text::white_space_at_the_ends_is_cut(front, words, back);
    text::occurring_is_standing_between(text::decimal(game.app_id as nat), words);
}

/// A game that is shown has what is searched for in its name or in its app ID, and has
/// a schema where games without one are hidden.
pub proof fn only_what_is_searched_for_is_shown(
    picker: PickerModel,
    game: GameModel,
    front: Seq<char>,
    words: Seq<char>,
    back: Seq<char>,
)
    requires
        is_match(picker, game),
        picker.search == front + words + back,
        forall|i: int| 0 <= i < front.len() ==> text::is_white(#[trigger] front[i]),
        forall|i: int| 0 <= i < back.len() ==> text::is_white(#[trigger] back[i]),
        words.len() > 0 ==> !text::is_white(words[0]) && !text::is_white(words[words.len() - 1]),
    ensures
        picker.hide_without_schema ==> game.has_schema,
        words.len() > 0 ==> exists|a: Seq<char>, b: Seq<char>|
            #![trigger a + text::lowered(words) + b]
            #![trigger a + words + b]
            {
                ||| text::lowered(game.name) == a + text::lowered(words) + b
                ||| text::decimal(game.app_id as nat) == a + words + b
            },
{
    text::white_space_at_the_ends_is_cut(front, words, back);
    let name = text::lowered(game.name);
    let digits = text::decimal(game.app_id as nat);
    text::occurring_is_standing_between(name, text::lowered(words));
    text::occurring_is_standing_between(digits, words);
    if words.len() > 0 {
        if text::occurs_in(name, text::lowered(words)) {
            let (a, b) = choose|a: Seq<char>, b: Seq<char>|
                name == #[trigger] (a + text::lowered(words) + b);
            assert(name == a + text::lowered(words) + b);
        } else {
            let (a, b) = choose|a: Seq<char>, b: Seq<char>| digits == #[trigger] (a + words + b);
            assert(digits == a + words + b);
        }
    }
}

/// While nothing is searched for, every game is shown but those without a schema where
/// they are hidden.
pub proof fn an_empty_search_shows_everything(picker: PickerModel, game: GameModel)
    requires
        forall|i: int|
            0 <= i < picker.search.len() ==> text::is_white(#[trigger] picker.search[i]),
    ensures
        is_match(picker, game) <==> game.has_schema || !picker.hide_without_schema,
{
    let none = Seq::<char>::empty();
    assert(picker.search =~= picker.search + none + none);
    text::white_space_at_the_ends_is_cut(picker.search, none, none);
}

/// A game tells of its app what is known: its ID, its name or else its ID in words, where
/// its capsule lies, and whether it has a schema.
pub proof fn games_tell_what_is_known(facts: FactsModel, kind: Seq<char>, source: Source)
    ensures
        ({
            let game = game_of(facts, kind, source);
            &&& game.app_id == facts.app_id
            &&& facts.name matches Some(name) ==> game.name == name
            &&& facts.name is None ==> game.name == "App "@ + text::decimal(facts.app_id as nat)
            &&& game.capsule_url == facts.capsule_url
            &&& game.kind == kind
            &&& game.source == source
            &&& game.has_schema == facts.has_schema
        }),
{
}

/// A game is what is known of an owned app that was found locally. It was found by its
/// schema, if it has one, and else by being installed.
pub open spec fn is_local_game(game: GameModel, facts: FactsModel) -> bool {
    &&& facts.owned
    &&& game.app_id == facts.app_id
    &&& facts.name matches Some(name) ==> game.name == name
    &&& facts.name is None ==> game.name == "App "@ + text::decimal(facts.app_id as nat)
    &&& game.capsule_url == facts.capsule_url
    &&& game.has_schema == facts.has_schema
    &&& game.source == if facts.has_schema {
        Source::CachedSchema
    } else {
        Source::Installed
    }
}

proof fn local_games_are_known(found: Seq<FactsModel>, k: int) -> (i: int)
    requires
        0 <= k < local_games(found).len(),
    ensures
        0 <= i < found.len(),
        is_local_game(local_games(found)[k], found[i]),
    decreases found.len(),
{
    let before = local_games(found.drop_last());
    if k < before.len() {
        local_games_are_known(found.drop_last(), k)
    } else {
        found.len() - 1
    }
}

/// After a local scan every game that is listed is what is known of an owned app that was
/// found.
pub proof fn scans_list_what_is_known(picker: PickerModel, found: Seq<FactsModel>, k: int)
    requires
        0 <= k < rescanned(picker, found).games.len(),
    ensures
        exists|i: int|
            0 <= i < found.len() && is_local_game(
                rescanned(picker, found).games[k],
                #[trigger] found[i],
            ),
{
    let all = local_games(found);
    ordering::tidying_loses_no_app(all);
    assert(all.contains(ordering::tidied(all)[k]));
    let m = all.index_of(ordering::tidied(all)[k]);
    let i = local_games_are_known(found, m);
    assert(is_local_game(rescanned(picker, found).games[k], found[i]));
}

/// After a local scan the games are in alphabetical order, and the status tells how many
/// there are. Nothing else has changed.
pub proof fn scans_are_in_order(picker: PickerModel, found: Seq<FactsModel>, j: int, k: int)
    requires
        0 <= j <= k < rescanned(picker, found).games.len(),
    ensures
        ({
            let after = rescanned(picker, found);
            &&& text::at_most(
                text::lowered(after.games[j].name),
                text::lowered(after.games[k].name),
            )
            &&& exists|rest: Seq<char>|
                after.status == #[trigger] (text::decimal(after.games.len()) + rest)
            &&& after == PickerModel { games: after.games, status: after.status, ..picker }
        }),
{
    ordering::tidied_games_are_in_alphabetical_order(local_games(found), j, k);
    let after = rescanned(picker, found);
    let words = " games found locally."@;
    assert(after.status == text::decimal(after.games.len()) + words);
}

/// An app that is not owned is not added, and the words say which one it is. One that is
/// listed already is searched for instead. Only one that is owned and not listed goes on to
/// be described.
pub proof fn only_new_owned_apps_are_added(picker: PickerModel, app_id: u32, owned: bool)
    ensures
        ({
            let (after, step) = add_answered(picker, app_id, owned);
            &&& after.games == picker.games
            &&& step == AddStep::Describe <==> owned && !is_listed(picker.games, app_id)
            &&& step == AddStep::Describe ==> after == picker
            &&& !owned ==> {
                &&& after.error matches Some(words) && exists|a: Seq<char>, b: Seq<char>|
                    words == #[trigger] (a + text::decimal(app_id as nat) + b)
                &&& after.search == picker.search
                &&& after.add_id == picker.add_id
            }
            &&& owned && is_listed(picker.games, app_id) ==> {
                &&& after.error is None
                &&& after.search == text::decimal(app_id as nat)
                &&& after.add_id.len() == 0
            }
        }),
{
    if !owned {
        assert(add_answered(picker, app_id, owned).0.error->0 == "You do not own app "@
            + text::decimal(app_id as nat) + "."@);
    }
}

/// An app that is listed already is shown once it is to be added: the search that is put
/// in finds it, unless it is hidden for want of a schema.
pub proof fn a_listed_app_is_shown_when_added(picker: PickerModel, game: GameModel)
    requires
        is_listed(picker.games, game.app_id),
        game.has_schema || !picker.hide_without_schema,
    ensures
        is_match(add_answered(picker, game.app_id, true).0, game),
{
    let after = add_answered(picker, game.app_id, true).0;
    let digits = text::decimal(game.app_id as nat);
    let none = Seq::<char>::empty();
    text::decimal_denotes(game.app_id as nat);
    assert(text::is_digit(digits[0]) && text::is_digit(digits[digits.len() - 1]));
    assert(after.search =~= none + digits + none);
    assert(digits =~= none + digits + none);
    ids_are_found_anywhere(after, game, none, digits, none, none, none);
}

/// The game to describe anew is the first of its app, and none only where the app is not
/// listed.
pub proof fn the_first_game_of_an_app_is_found(games: Seq<GameModel>, app_id: u32)
    ensures
        match first_listed(games, app_id) {
            Some(i) => 0 <= i < games.len() && games[i].app_id == app_id && forall|k: int|
                0 <= k < i ==> (#[trigger] games[k]).app_id != app_id,
            None => forall|k: int|
                0 <= k < games.len() ==> (#[trigger] games[k]).app_id != app_id,
        },
    decreases games.len(),
{
    if games.len() > 0 {
        let shorter = games.drop_last();
        the_first_game_of_an_app_is_found(shorter, app_id);
        assert forall|k: int| 0 <= k < shorter.len() implies shorter[k] == #[trigger] games[k] by {}
    }
}

/// At the end of a share the status tells how many games there are, and while candidates
/// are waiting also how many of how many were looked at. Nothing but the games' order and
/// the status changes.
pub proof fn shares_tell_how_far_they_are(picker: PickerModel, added: bool)
    ensures
        ({
            let after = slice_finished(picker, added);
            let count = text::decimal(after.games.len());
            &&& !added ==> after.games == picker.games
            &&& added ==> after.games == ordering::tidied(picker.games)
            &&& picker.pending_remote.len() == 0 ==> exists|rest: Seq<char>|
                after.status == #[trigger] (count + rest)
            &&& picker.pending_remote.len() > 0 ==> exists|
                a: Seq<char>,
                b: Seq<char>,
                c: Seq<char>,
                d: Seq<char>,
            |
                after.status == #[trigger] (a + text::decimal(picker.remote_seen) + b
                    + text::decimal(picker.remote_total) + c + count + d)
            &&& after == PickerModel { games: after.games, status: after.status, ..picker }
        }),
{
    let after = slice_finished(picker, added);
    let count = text::decimal(after.games.len());
    if picker.pending_remote.len() == 0 {
        assert(after.status == count + " games."@);
    } else {
        assert(after.status == "Checking ownership... "@ + text::decimal(picker.remote_seen)
            + "/"@ + text::decimal(picker.remote_total) + " ("@ + count + " games so far)"@);
    }
}

/// What keeps an editor from opening is told in the operating system's words, and the two
/// reasons are told apart.
pub proof fn failures_are_told(words: Seq<char>)
    ensures
        exists|a: Seq<char>|
            failure_words(FailureModel::NoProgram(words)) == #[trigger] (a + words),
        exists|a: Seq<char>|
            failure_words(FailureModel::NotStarted(words)) == #[trigger] (a + words),
        failure_words(FailureModel::NoProgram(words)) != failure_words(
            FailureModel::NotStarted(words),
        ),
{
    reveal_strlit("Could not locate this executable: ");
    reveal_strlit("Could not open the editor: ");
    let (a, b) = ("Could not locate this executable: "@, "Could not open the editor: "@);
    assert(failure_words(FailureModel::NoProgram(words)) == a + words);
    assert(failure_words(FailureModel::NotStarted(words)) == b + words);
    assert(a.len() != b.len());
}

/// A scan of the master list is under way while the list is being downloaded, and while
/// any of it waits to be looked at.
pub proof fn scans_last_until_nothing_waits(picker: PickerModel)
    ensures
        is_scanning(PickerModel { downloading: true, ..picker }),
        picker.pending_remote.len() > 0 ==> is_scanning(picker),
        !picker.downloading && picker.pending_remote.len() == 0 ==> !is_scanning(picker),
{
}

/// An app is listed exactly where one of the games is of that app, wherever it stands.
pub proof fn apps_are_listed_anywhere(
    before: Seq<GameModel>,
    game: GameModel,
    after: Seq<GameModel>,
    app_id: u32,
)
    ensures
        is_listed(before + seq![game] + after, app_id) <==> game.app_id == app_id || is_listed(
            before,
            app_id,
        ) || is_listed(after, app_id),
        !is_listed(Seq::empty(), app_id),
{
    let all = before + seq![game] + after;
    let n = before.len() as int;
    if game.app_id == app_id {
        assert(all[n].app_id == app_id);
    }
    if is_listed(before, app_id) {
        let i = choose|i: int| 0 <= i < before.len() && (#[trigger] before[i]).app_id == app_id;
        assert(all[i].app_id == app_id);
    }
    if is_listed(after, app_id) {
        let i = choose|i: int| 0 <= i < after.len() && (#[trigger] after[i]).app_id == app_id;
        assert(all[n + 1 + i].app_id == app_id);
    }
    if is_listed(all, app_id) {
        let i = choose|i: int| 0 <= i < all.len() && (#[trigger] all[i]).app_id == app_id;
        if i < n {
            assert(before[i].app_id == app_id);
        } else if i > n {
            assert(after[i - n - 1].app_id == app_id);
        }
    }
}

} // verus!
