//! Locating the Steam installation and its client library.
//!
//! There is no registry on Linux, so the handful of layouts Valve and the
//! distributions actually use are probed. The probing itself touches the file
//! system and is the caller's; what to probe, and what to make of the answers,
//! is decided here.

use vstd::prelude::*;
use vstd::utf8::encode_utf8;

use crate::error::{Error, ErrorModel};
use crate::fs_path;
use crate::fs_path::FsPath;
use crate::text;

verus! {

/// Relative paths to `steamclient.so`, most preferred first.
///
/// A 64-bit build must load the 64-bit library: the loader will refuse to map
/// an ELF of the wrong class, and even if it did, every vtable offset would be
/// wrong. `linux64` is the modern location; `steamrt64` appears on installs
/// that have migrated to the Steam Runtime layout.
pub open spec fn library_names() -> Seq<Seq<char>> {
    if usize::BITS == 64 {
        seq![
            "linux64/steamclient.so"@,
            "steamrt64/steamclient.so"@,
            "ubuntu12_64/steamclient.so"@,
        ]
    } else {
        seq![
            "linux32/steamclient.so"@,
            "steamrt32/steamclient.so"@,
            "ubuntu12_32/steamclient.so"@,
        ]
    }
}

/// Where the client library may lie under a Steam root, most preferred first.
pub open spec fn library_places(root: Seq<u8>) -> Seq<Seq<u8>> {
    library_names().map_values(|name: Seq<char>| fs_path::joined(root, encode_utf8(name)))
}

/// The places to look for `steamclient.so` under `root`, most preferred first.
pub fn client_library_candidates(root: &FsPath) -> (r: Vec<FsPath>)
    ensures
        fs_path::spelled(r@) == library_places(root@),
        r@.len() == 3,
{
    let mut r: Vec<FsPath> = Vec::new();
    if usize::BITS == 64 {
        r.push(root.join("linux64/steamclient.so"));
        r.push(root.join("steamrt64/steamclient.so"));
        r.push(root.join("ubuntu12_64/steamclient.so"));
    } else {
        r.push(root.join("linux32/steamclient.so"));
        r.push(root.join("steamrt32/steamclient.so"));
        r.push(root.join("ubuntu12_32/steamclient.so"));
    }
    assert(fs_path::spelled(r@) =~= library_places(root@));
    r
}

/// The paths among a list that spell anything, in order.
pub open spec fn non_empty_paths(list: Seq<Seq<u8>>) -> Seq<Seq<u8>> {
    list.filter(|p: Seq<u8>| p.len() > 0)
}

/// Where Steam may live under a home directory, most preferred first.
pub open spec fn home_places(home: Seq<u8>) -> Seq<Seq<u8>> {
    seq![
        fs_path::joined(home, encode_utf8(".steam/steam"@)),
        fs_path::joined(home, encode_utf8(".steam/root"@)),
        fs_path::joined(home, encode_utf8(".local/share/Steam"@)),
        fs_path::joined(home, encode_utf8(".steam/debian-installation"@)),
        fs_path::joined(
            home,
            encode_utf8(".var/app/com.valvesoftware.Steam/.local/share/Steam"@),
        ),
        fs_path::joined(home, encode_utf8(".steam"@)),
    ]
}

/// Every Steam root to try: explicit overrides first, then the places under the
/// home directory, if there is one.
pub open spec fn root_places(overrides: Seq<Seq<u8>>, home: Option<Seq<u8>>) -> Seq<Seq<u8>> {
    non_empty_paths(overrides) + match home {
        Some(dir) if dir.len() > 0 => home_places(dir),
        _ => Seq::empty(),
    }
}

/// What an optional path says.
pub open spec fn path_view(p: Option<FsPath>) -> Option<Seq<u8>> {
    match p {
        Some(path) => Some(path@),
        None => None,
    }
}

/// Candidate Steam roots, most preferred first. Several of these are normally
/// symlinks to the same directory; duplicates are filtered after canonicalising.
///
/// `overrides` are the values of `SAM_STEAM_ROOT`, `STEAM_ROOT` and
/// `STEAM_BASE_FOLDER`, in that order, of those that are set. An explicit
/// override always wins, which is useful for unusual installs and for pointing
/// the tool at a second Steam library on another drive.
pub fn candidate_roots(overrides: &Vec<FsPath>, home: Option<FsPath>) -> (r: Vec<FsPath>)
    ensures
        fs_path::spelled(r@) == root_places(fs_path::spelled(overrides@), path_view(home)),
{
    let ghost all = fs_path::spelled(overrides@);
    let ghost spells = |p: Seq<u8>| p.len() > 0;
    let mut r: Vec<FsPath> = Vec::new();
    assert(all.take(0).filter(spells) == Seq::<Seq<u8>>::empty()) by {
        reveal(Seq::filter);
    }
    assert(fs_path::spelled(r@) == non_empty_paths(all.take(0)));
    for i in 0..overrides.len()
        invariant
            all == fs_path::spelled(overrides@),
            spells == |p: Seq<u8>| p.len() > 0,
            fs_path::spelled(r@) == all.take(i as int).filter(spells),
    {
        let ghost was = fs_path::spelled(r@);
        proof {
            assert(all.take(i + 1) == all.take(i as int).push(all[i as int]));
            all.take(i as int).lemma_filter_push(all[i as int], spells);
        }
        if !overrides[i].is_empty() {
            r.push(overrides[i].clone());
            assert(fs_path::spelled(r@) == was.push(all[i as int]));
        }
    }
    assert(all.take(all.len() as int) == all);
    let ghost front = fs_path::spelled(r@);
    if let Some(dir) = home {
        if !dir.is_empty() {
            // The canonical symlink.
            r.push(dir.join(".steam/steam"));
            // An alternative symlink.
            r.push(dir.join(".steam/root"));
            // The native default.
            r.push(dir.join(".local/share/Steam"));
            // The Debian and Ubuntu package.
            r.push(dir.join(".steam/debian-installation"));
            // Flatpak.
            r.push(dir.join(".var/app/com.valvesoftware.Steam/.local/share/Steam"));
            r.push(dir.join(".steam"));
            assert(fs_path::spelled(r@) =~= front + home_places(dir@));
        }
    }
    assert(fs_path::spelled(r@) =~= root_places(all, path_view(home)));
    r
}

/// What the file system says of one candidate root.
pub struct RootProbe {
    /// The root with every symlink resolved; none where it does not exist.
    pub canonical: Option<FsPath>,
    /// Whether the resolved root is a directory.
    pub is_dir: bool,
    /// Which of [`client_library_candidates`] of the resolved root are files.
    pub libraries: [bool; 3],
}

/// What a [`RootProbe`] says.
pub struct ProbeModel {
    pub canonical: Option<Seq<u8>>,
    pub is_dir: bool,
    pub libraries: Seq<bool>,
}

impl View for RootProbe {
    type V = ProbeModel;

    open spec fn view(&self) -> ProbeModel {
        ProbeModel {
            canonical: path_view(self.canonical),
            is_dir: self.is_dir,
            libraries: self.libraries@,
        }
    }
}

impl ProbeModel {
    /// The candidate is a directory.
    pub open spec fn is_root(self) -> bool {
        self.canonical is Some && self.is_dir
    }
}

/// What a list of probes says.
pub open spec fn probed(list: Seq<RootProbe>) -> Seq<ProbeModel> {
    list.map_values(|p: RootProbe| p@)
}

/// The most preferred library that is there.
pub open spec fn first_library(libraries: Seq<bool>) -> Option<int> {
    if libraries[0] {
        Some(0)
    } else if libraries[1] {
        Some(1)
    } else if libraries[2] {
        Some(2)
    } else {
        None
    }
}

/// The most preferred library that is there.
fn most_preferred(libraries: &[bool; 3]) -> (r: Option<usize>)
    ensures
        match first_library(libraries@) {
            Some(k) => r matches Some(i) && i == k && i < 3,
            None => r is None,
        },
{
    if libraries[0] {
        Some(0)
    } else if libraries[1] {
        Some(1)
    } else if libraries[2] {
        Some(2)
    } else {
        None
    }
}

/// The last candidate of a list is a directory that no earlier one is.
pub open spec fn last_is_new_root(probes: Seq<ProbeModel>) -> bool {
    &&& probes.last().is_root()
    &&& forall|j: int|
        0 <= j < probes.len() - 1 ==> !((#[trigger] probes[j]).is_root() && fs_path::same_path(
            probes[j].canonical->0,
            probes.last().canonical->0,
        ))
}

/// The first root with a client library, and that library.
pub open spec fn located(probes: Seq<ProbeModel>) -> Option<(Seq<u8>, Seq<u8>)>
    decreases probes.len(),
{
    if probes.len() == 0 {
        None
    } else {
        match located(probes.drop_last()) {
            Some(found) => Some(found),
            None => if last_is_new_root(probes) {
                let root = probes.last().canonical->0;
                match first_library(probes.last().libraries) {
                    Some(k) => Some((root, library_places(root)[k])),
                    None => None,
                }
            } else {
                None
            },
        }
    }
}

/// Every place that was looked in, where none held a client library.
pub open spec fn searched_places(probes: Seq<ProbeModel>) -> Seq<Seq<u8>>
    decreases probes.len(),
{
    if probes.len() == 0 {
        Seq::empty()
    } else {
        searched_places(probes.drop_last()) + if last_is_new_root(probes) {
            library_places(probes.last().canonical->0)
        } else {
            Seq::empty()
        }
    }
}

/// A located Steam installation.
#[derive(Debug, PartialEq)]
pub struct SteamPaths {
    root: FsPath,
    client_library: FsPath,
}

/// What [`SteamPaths`] say.
pub struct PathsModel {
    pub root: Seq<u8>,
    pub client_library: Seq<u8>,
}

impl View for SteamPaths {
    type V = PathsModel;

    closed spec fn view(&self) -> PathsModel {
        PathsModel { root: self.root@, client_library: self.client_library@ }
    }
}

impl Clone for SteamPaths {
    fn clone(&self) -> (r: Self)
        ensures
            r@ == self@,
    {
        SteamPaths { root: self.root.clone(), client_library: self.client_library.clone() }
    }
}

/// Where app schemas are cached under a Steam root.
pub open spec fn stats_dir(root: Seq<u8>) -> Seq<u8> {
    fs_path::joined(fs_path::joined(root, encode_utf8("appcache"@)), encode_utf8("stats"@))
}

/// The file name of an app's cached schema.
pub open spec fn schema_file_name(app_id: u32) -> Seq<char> {
    "UserGameStatsSchema_"@ + text::decimal(app_id as nat) + ".bin"@
}

/// The number between a prefix and a suffix that together with it make up a
/// file name.
pub open spec fn id_in_name(name: Seq<char>, prefix: Seq<char>, suffix: Seq<char>) -> Option<nat> {
    if text::occurs_at(name, prefix, 0) && prefix.len() + suffix.len() <= name.len()
        && text::occurs_at(name, suffix, name.len() - suffix.len()) {
        text::read_u32(name.subrange(prefix.len() as int, name.len() - suffix.len()))
    } else {
        None
    }
}

/// The number that a file name carries between `prefix` and `suffix`.
pub fn parse_id_in_name(name: &str, prefix: &str, suffix: &str) -> (r: Option<u32>)
    ensures
        match id_in_name(name@, prefix@, suffix@) {
            Some(n) => r matches Some(id) && id == n,
            None => r is None,
        },
{
    let n = text::chars_of(name);
    let p = text::chars_of(prefix);
    let s = text::chars_of(suffix);
    if !text::stands_at(&n, &p, 0) {
        return None;
    }
    if s.len() > n.len() - p.len() {
        return None;
    }
    let end = n.len() - s.len();
    if !text::stands_at(&n, &s, end) {
        return None;
    }
    text::parse_u32(text::slice_text(&n, p.len(), end).as_str())
}

/// Numbers in ascending order, each of them once.
pub open spec fn ascending(ids: Seq<u32>) -> bool {
    forall|i: int, j: int| 0 <= i < j < ids.len() ==> ids[i] < ids[j]
}

/// Puts a number in its place among ascending ones, unless it is there.
pub fn insert_ascending(ids: &mut Vec<u32>, id: u32)
    requires
        ascending(old(ids)@),
    ensures
        ascending(final(ids)@),
        final(ids)@.to_set() == old(ids)@.to_set().insert(id),
{
    let ghost was = ids@;
    let mut i: usize = 0;
    while i < ids.len() && ids[i] < id
        invariant
            ids@ == was,
            i <= ids@.len(),
            forall|k: int| 0 <= k < i ==> ids@[k] < id,
        decreases ids@.len() - i,
    {
        i = i + 1;
    }
    if i < ids.len() && ids[i] == id {
        assert(was.to_set().insert(id) =~= was.to_set());
        return;
    }
    ids.insert(i, id);
    proof {
        let now = ids@;
        assert forall|a: int, b: int| 0 <= a < b < now.len() implies now[a] < now[b] by {
            if a < i && b > i {
                assert(was[a] < was[b - 1]);
            } else if a == i {
                assert(was[i as int] <= was[b - 1]);
            } else if a > i {
                assert(was[a - 1] < was[b - 1]);
            }
        }
        assert forall|x: u32| now.to_set().contains(x) <==> was.to_set().insert(id).contains(x) by {
            if now.contains(x) {
                let k = now.index_of(x);
                if k < i {
                    assert(was[k] == x);
                } else if k > i {
                    assert(was[k - 1] == x);
                }
            }
            if was.contains(x) {
                let k = was.index_of(x);
                if k < i {
                    assert(now[k] == x);
                } else {
                    assert(now[k + 1] == x);
                }
            }
            assert(now[i as int] == id);
        }
        assert(now.to_set() =~= was.to_set().insert(id));
    }
}

/// The numbers that some file names carry.
pub open spec fn ids_in_names(names: Seq<Seq<char>>, prefix: Seq<char>, suffix: Seq<char>) -> Set<
    u32,
> {
    Set::new(
        |id: u32|
            exists|i: int|
                0 <= i < names.len() && id_in_name(#[trigger] names[i], prefix, suffix) == Some(
                    id as nat,
                ),
    )
}

/// Adds the numbers that some file names carry to ascending ones.
pub fn insert_ids(ids: &mut Vec<u32>, names: &Vec<String>, prefix: &str, suffix: &str)
    requires
        ascending(old(ids)@),
    ensures
        ascending(final(ids)@),
        final(ids)@.to_set() == old(ids)@.to_set() + ids_in_names(
            text::texts_of(names@),
            prefix@,
            suffix@,
        ),
{
    let ghost before = ids@.to_set();
    let ghost all = text::texts_of(names@);
    assert(before =~= before + ids_in_names(all.take(0), prefix@, suffix@));
    for i in 0..names.len()
        invariant
            ascending(ids@),
            all == text::texts_of(names@),
            ids@.to_set() == before + ids_in_names(all.take(i as int), prefix@, suffix@),
    {
        let ghost was = ids@.to_set();
        let ghost upto = all.take(i as int);
        let ghost next = all.take(i + 1);
        let found = parse_id_in_name(names[i].as_str(), prefix, suffix);
        if let Some(id) = found {
            insert_ascending(ids, id);
        }
        proof {
            let a = ids_in_names(upto, prefix@, suffix@);
            let b = ids_in_names(next, prefix@, suffix@);
            assert forall|x: u32| b.contains(x) <==> a.contains(x) || found == Some(x) by {
                if b.contains(x) {
                    let k = choose|k: int|
                        0 <= k < next.len() && id_in_name(#[trigger] next[k], prefix@, suffix@)
                            == Some(x as nat);
                    if k < i {
                        assert(upto[k] == next[k]);
                    }
                }
                if a.contains(x) {
                    let k = choose|k: int|
                        0 <= k < upto.len() && id_in_name(#[trigger] upto[k], prefix@, suffix@)
                            == Some(x as nat);
                    assert(next[k] == upto[k]);
                }
                if found == Some(x) {
                    assert(id_in_name(next[i as int], prefix@, suffix@) == Some(x as nat));
                }
            }
            assert(ids@.to_set() =~= before + b);
        }
    }
    assert(all.take(all.len() as int) == all);
}

impl SteamPaths {
    /// Find Steam among the probed candidates, requiring that a loadable
    /// `steamclient.so` of the right architecture is present. A root without
    /// one is skipped rather than accepted, so a stale `~/.steam` cannot mask a
    /// working install.
    pub fn discover(probes: &Vec<RootProbe>) -> (r: Result<SteamPaths, Error>)
        ensures
            match located(probed(probes@)) {
                Some((root, library)) => r matches Ok(paths) && paths@ == (PathsModel {
                    root,
                    client_library: library,
                }),
                None => r matches Err(e) && e@ == if exists|i: int|
                    0 <= i < probes@.len() && (#[trigger] probed(probes@)[i]).is_root() {
                    ErrorModel::ClientLibraryNotFound { searched: searched_places(probed(probes@)) }
                } else {
                    ErrorModel::SteamNotFound
                },
            },
    {
        let ghost all = probed(probes@);
        let mut searched: Vec<FsPath> = Vec::new();
        let mut found_any_root = false;
        assert(fs_path::spelled(searched@) == searched_places(all.take(0)));
        for i in 0..probes.len()
            invariant
                all == probed(probes@),
                located(all.take(i as int)) is None,
                fs_path::spelled(searched@) == searched_places(all.take(i as int)),
                found_any_root <==> exists|k: int| 0 <= k < i && (#[trigger] all[k]).is_root(),
        {
            let ghost upto = all.take(i + 1);
            let probe = &probes[i];
            proof {
                assert(upto.drop_last() == all.take(i as int));
                assert(upto.last() == probe@);
                assert(all[i as int] == probe@);
            }
            let mut seen = false;
            if let Some(root) = &probe.canonical {
                if probe.is_dir {
                    let mut j: usize = 0;
                    while j < i
                        invariant
                            j <= i < probes@.len(),
                            all == probed(probes@),
                            probe.canonical == Some(*root),
                            seen <==> exists|k: int|
                                0 <= k < j && (#[trigger] all[k]).is_root() && fs_path::same_path(
                                    all[k].canonical->0,
                                    root@,
                                ),
                        decreases i - j,
                    {
                        assert(all[j as int] == probes@[j as int]@);
                        if let Some(earlier) = &probes[j].canonical {
                            if probes[j].is_dir && earlier.same_as(root) {
                                seen = true;
                            }
                        }
                        j = j + 1;
                    }
                    proof {
                        assert(all[i as int].is_root());
                        assert(seen == !last_is_new_root(upto)) by {
                            if seen {
                                let k = choose|k: int|
                                    0 <= k < i && (#[trigger] all[k]).is_root()
                                        && fs_path::same_path(all[k].canonical->0, root@);
                                assert(upto[k] == all[k]);
                            } else {
                                assert forall|k: int| 0 <= k < upto.len() - 1 implies !((
                                #[trigger] upto[k]).is_root() && fs_path::same_path(
                                    upto[k].canonical->0,
                                    root@,
                                )) by {
                                    assert(upto[k] == all[k]);
                                }
                            }
                        }
                    }
                    found_any_root = true;
                    if !seen {
                        let mut candidates = client_library_candidates(root);
                        let ghost places = library_places(root@);
                        if let Some(k) = most_preferred(&probe.libraries) {
                            proof {
                                assert(fs_path::spelled(candidates@)[k as int]
                                    == candidates@[k as int]@);
                                located_stays(all, i + 1);
                            }
                            let client_library = candidates[k].clone();
                            return Ok(SteamPaths { root: root.clone(), client_library });
                        }
                        let ghost was = fs_path::spelled(searched@);
                        searched.append(&mut candidates);
                        assert(fs_path::spelled(searched@) =~= was + places);
                    }
                }
            }
            proof {
                assert(fs_path::spelled(searched@) =~= searched_places(upto));
                assert(located(upto) is None);
                if all[i as int].is_root() {
                    assert(found_any_root);
                }
            }
        }
        assert(all.take(all.len() as int) == all);
        if !found_any_root {
            return Err(Error::SteamNotFound);
        }
        Err(Error::ClientLibraryNotFound { searched })
    }

    /// Build from an explicit root, given what resolving it came to and which
    /// of its [`client_library_candidates`] are files.
    pub fn from_root(resolved: Result<FsPath, String>, libraries: [bool; 3]) -> (r: Result<
        SteamPaths,
        Error,
    >)
        ensures
            match resolved {
                Err(words) => r matches Err(e) && e@ == ErrorModel::Io(words@),
                Ok(path) => match first_library(libraries@) {
                    Some(k) => r matches Ok(paths) && paths@ == (PathsModel {
                        root: path@,
                        client_library: library_places(path@)[k],
                    }),
                    None => r matches Err(e) && e@ == (ErrorModel::ClientLibraryNotFound {
                        searched: library_places(path@),
                    }),
                },
            },
    {
        let root = match resolved {
            Ok(path) => path,
            Err(words) => {
                return Err(Error::Io(words));
            },
        };
        let searched = client_library_candidates(&root);
        if let Some(k) = most_preferred(&libraries) {
            assert(fs_path::spelled(searched@)[k as int] == searched@[k as int]@);
            let client_library = searched[k].clone();
            return Ok(SteamPaths { root, client_library });
        }
        Err(Error::ClientLibraryNotFound { searched })
    }

    /// The Steam root.
    pub fn root(&self) -> (r: &FsPath)
        ensures
            r@ == self@.root,
    {
        &self.root
    }

    /// The client library.
    pub fn client_library(&self) -> (r: &FsPath)
        ensures
            r@ == self@.client_library,
    {
        &self.client_library
    }

    /// Directory holding `UserGameStatsSchema_<appid>.bin`.
    pub fn stats_cache_dir(&self) -> (r: FsPath)
        ensures
            r@ == stats_dir(self@.root),
    {
        self.root.join("appcache").join("stats")
    }

    /// The cached stat and achievement schema for an app, if Steam has one.
    ///
    /// Steam writes this the first time an app with stats is launched, so a
    /// game that has never been run will not have one.
    pub fn schema_path(&self, app_id: u32) -> (r: FsPath)
        ensures
            r@ == fs_path::joined(stats_dir(self@.root), encode_utf8(schema_file_name(app_id))),
    {
        let mut name = "UserGameStatsSchema_".to_owned();
        text::push_decimal(&mut name, app_id as u64);
        name.append(".bin");
        self.stats_cache_dir().join(name.as_str())
    }

    /// App IDs that have a cached schema, i.e. every app on this machine known
    /// to have achievements or stats, of the names of the files in
    /// [`SteamPaths::stats_cache_dir`].
    /// This is the offline half of game discovery and needs no network access.
    pub fn apps_with_cached_schema(&self, names: &Vec<String>) -> (r: Vec<u32>)
        ensures
            ascending(r@),
            r@.to_set() == ids_in_names(
                text::texts_of(names@),
                "UserGameStatsSchema_"@,
                ".bin"@,
            ),
    {
        let mut ids: Vec<u32> = Vec::new();
        insert_ids(&mut ids, names, "UserGameStatsSchema_", ".bin");
        assert(ids@.to_set() =~= ids_in_names(
            text::texts_of(names@),
            "UserGameStatsSchema_"@,
            ".bin"@,
        ));
        ids
    }
}

proof fn located_stays(probes: Seq<ProbeModel>, n: int)
    requires
        0 <= n <= probes.len(),
        located(probes.take(n)) is Some,
    ensures
        located(probes) == located(probes.take(n)),
    decreases probes.len() - n,
{
    if n < probes.len() {
        assert(probes.take(n + 1).drop_last() == probes.take(n));
        located_stays(probes, n + 1);
    } else {
        assert(probes.take(n) == probes);
    }
}

/// An app's schema is found again under the name that it is looked for.
pub proof fn schema_names_carry_their_app(app_id: u32)
    ensures
        id_in_name(schema_file_name(app_id), "UserGameStatsSchema_"@, ".bin"@) == Some(
            app_id as nat,
        ),
{
    let name = schema_file_name(app_id);
    let prefix = "UserGameStatsSchema_"@;
    let suffix = ".bin"@;
    let digits = text::decimal(app_id as nat);
    assert(name.subrange(0, prefix.len() as int) == prefix);
    assert(name.subrange(name.len() - suffix.len(), name.len() as int) == suffix);
    assert(name.subrange(prefix.len() as int, name.len() - suffix.len()) == digits);
    text::decimal_reads_back(app_id as nat);
}

/// The first candidate wins where it is a root with a client library, whatever
/// the others are. Explicit overrides are the first candidates.
pub proof fn a_working_override_wins(probes: Seq<ProbeModel>)
    requires
        probes.len() > 0,
        probes[0].is_root(),
        first_library(probes[0].libraries) is Some,
    ensures
        located(probes) == Some(
            (
                probes[0].canonical->0,
                library_places(
                    probes[0].canonical->0,
                )[first_library(probes[0].libraries)->0],
            ),
        ),
{
    let one = probes.take(1);
    assert(one.drop_last().len() == 0);
    assert(located(one.drop_last()) is None);
    assert(one.last() == probes[0]);
    assert(last_is_new_root(one));
    located_stays(probes, 1);
}

/// A root without a client library masks nothing: where any of the candidates
/// has one, Steam is found.
pub proof fn working_install_is_found(probes: Seq<ProbeModel>, i: int)
    requires
        0 <= i < probes.len(),
        probes[i].is_root(),
        first_library(probes[i].libraries) is Some,
        forall|j: int, k: int|
            0 <= j < probes.len() && 0 <= k < probes.len() && (#[trigger] probes[j]).is_root() && (
            #[trigger] probes[k]).is_root() && fs_path::same_path(
                probes[j].canonical->0,
                probes[k].canonical->0,
            ) ==> probes[j].libraries == probes[k].libraries,
    ensures
        located(probes) is Some,
    decreases i,
{
    if exists|j: int|
        0 <= j < i && (#[trigger] probes[j]).is_root() && fs_path::same_path(
            probes[j].canonical->0,
            probes[i].canonical->0,
        ) {
        let j = choose|j: int|
            0 <= j < i && (#[trigger] probes[j]).is_root() && fs_path::same_path(
                probes[j].canonical->0,
                probes[i].canonical->0,
            );
        working_install_is_found(probes, j);
    } else {
        let upto = probes.take(i + 1);
        assert forall|j: int| 0 <= j < upto.len() - 1 implies !((#[trigger] upto[j]).is_root()
            && fs_path::same_path(upto[j].canonical->0, upto.last().canonical->0)) by {
            assert(upto[j] == probes[j]);
        }
        assert(last_is_new_root(upto));
        located_stays(probes, i + 1);
    }
}

/// Of the client libraries that are there, the first is taken; where none is, none is.
pub proof fn the_most_preferred_library_is_taken(libraries: Seq<bool>, k: int)
    requires
        libraries.len() == 3,
        0 <= k < 3,
    ensures
        libraries[k] && (forall|j: int| 0 <= j < k ==> !#[trigger] libraries[j])
            ==> first_library(libraries) == Some(k),
        first_library(libraries) is None <==> forall|j: int|
            0 <= j < 3 ==> !#[trigger] libraries[j],
        first_library(libraries) matches Some(i) ==> 0 <= i < 3 && libraries[i],
{
    if forall|j: int| 0 <= j < k ==> !#[trigger] libraries[j] {
        if k > 0 {
            assert(!libraries[0]);
        }
        if k > 1 {
            assert(!libraries[1]);
        }
    }
    assert(libraries[0] || !libraries[0]);
    assert(libraries[1] || !libraries[1]);
    assert(libraries[2] || !libraries[2]);
}

/// A candidate has a client library.
spec fn works(probe: ProbeModel) -> bool {
    probe.is_root() && first_library(probe.libraries) is Some
}

proof fn nothing_is_located_without_a_library(probes: Seq<ProbeModel>)
    requires
        forall|j: int| 0 <= j < probes.len() ==> !works(#[trigger] probes[j]),
    ensures
        located(probes) is None,
    decreases probes.len(),
{
    if probes.len() > 0 {
        let fewer = probes.drop_last();
        assert forall|j: int| 0 <= j < fewer.len() implies !works(#[trigger] fewer[j]) by {
            assert(fewer[j] == probes[j]);
        }
        nothing_is_located_without_a_library(fewer);
        assert(!works(probes[probes.len() - 1]));
    }
}

/// Steam is where the first candidate is that is a directory and has a client library, and
/// that root's most preferred library is the one to load.
pub proof fn the_first_working_root_is_taken(probes: Seq<ProbeModel>, i: int, k: int)
    requires
        forall|j: int| 0 <= j < probes.len() ==> (#[trigger] probes[j]).libraries.len() == 3,
        0 <= i < probes.len(),
        probes[i].canonical is Some,
        probes[i].is_dir,
        0 <= k < 3,
        probes[i].libraries[k],
        forall|m: int| 0 <= m < k ==> !#[trigger] probes[i].libraries[m],
        forall|j: int, m: int|
            #![trigger probes[j].libraries[m]]
            0 <= j < i && 0 <= m < 3 ==> !(probes[j].canonical is Some && probes[j].is_dir
                && probes[j].libraries[m]),
        forall|j: int|
            0 <= j < i && (#[trigger] probes[j]).canonical is Some && probes[j].is_dir
                ==> !fs_path::same_path(probes[j].canonical->0, probes[i].canonical->0),
    ensures
        located(probes) == Some(
            (
                probes[i].canonical->0,
                fs_path::joined(probes[i].canonical->0, encode_utf8(library_names()[k])),
            ),
        ),
{
    let upto = probes.take(i + 1);
    let earlier = probes.take(i);
    assert forall|j: int| 0 <= j < earlier.len() implies !works(#[trigger] earlier[j]) by {
        assert(earlier[j] == probes[j]);
        let libraries = probes[j].libraries;
        assert(libraries.len() == 3);
        the_most_preferred_library_is_taken(libraries, 0);
        if works(earlier[j]) {
            let m = first_library(libraries)->0;
            assert(probes[j].libraries[m]);
        }
    }
    nothing_is_located_without_a_library(earlier);
    assert(upto.drop_last() =~= earlier);
    assert(upto.last() == probes[i]);
    assert forall|j: int| 0 <= j < upto.len() - 1 implies !((#[trigger] upto[j]).is_root()
        && fs_path::same_path(upto[j].canonical->0, upto.last().canonical->0)) by {
        assert(upto[j] == probes[j]);
    }
    assert(last_is_new_root(upto));
    the_most_preferred_library_is_taken(probes[i].libraries, k);
    located_stays(probes, i + 1);
}

/// What is located is one of the candidates, a directory, and a client library that is
/// there.
pub proof fn only_working_roots_are_taken(probes: Seq<ProbeModel>) -> (r: (int, int))
    requires
        forall|j: int| 0 <= j < probes.len() ==> (#[trigger] probes[j]).libraries.len() == 3,
        located(probes) is Some,
    ensures
        ({
            let (i, k) = r;
            let (root, library) = located(probes)->0;
            &&& 0 <= i < probes.len() && 0 <= k < 3
            &&& probes[i].canonical == Some(root)
            &&& probes[i].is_dir
            &&& probes[i].libraries[k]
            &&& library == fs_path::joined(root, encode_utf8(library_names()[k]))
        }),
    decreases probes.len(),
{
    let fewer = probes.drop_last();
    assert forall|j: int| 0 <= j < fewer.len() implies (#[trigger] fewer[j]).libraries.len()
        == 3 by {
        assert(fewer[j] == probes[j]);
    }
    if located(fewer) is Some {
        only_working_roots_are_taken(fewer)
    } else {
        let i = probes.len() - 1;
        assert(probes[i] == probes.last());
        the_most_preferred_library_is_taken(probes[i].libraries, 0);
        let k = first_library(probes[i].libraries)->0;
        (i, k)
    }
}

/// The client library is looked for where the program's own word size has it.
pub proof fn libraries_fit_the_program(root: Seq<u8>)
    ensures
        library_places(root).len() == 3,
        usize::BITS == 64 ==> {
            let places = library_places(root);
            &&& places[0] == fs_path::joined(root, encode_utf8("linux64/steamclient.so"@))
            &&& places[1] == fs_path::joined(root, encode_utf8("steamrt64/steamclient.so"@))
            &&& places[2] == fs_path::joined(root, encode_utf8("ubuntu12_64/steamclient.so"@))
        },
        usize::BITS != 64 ==> {
            let places = library_places(root);
            &&& places[0] == fs_path::joined(root, encode_utf8("linux32/steamclient.so"@))
            &&& places[1] == fs_path::joined(root, encode_utf8("steamrt32/steamclient.so"@))
            &&& places[2] == fs_path::joined(root, encode_utf8("ubuntu12_32/steamclient.so"@))
        },
{
}

proof fn paths_kept_of_a_sum(a: Seq<Seq<u8>>, b: Seq<Seq<u8>>)
    ensures
        non_empty_paths(a + b) == non_empty_paths(a) + non_empty_paths(b),
    decreases b.len(),
{
    let spells = |p: Seq<u8>| p.len() > 0;
    if b.len() == 0 {
        assert(a + b =~= a);
        assert(non_empty_paths(b) =~= Seq::empty()) by {
            reveal(Seq::filter);
        }
        assert(non_empty_paths(a) + non_empty_paths(b) =~= non_empty_paths(a));
    } else {
        paths_kept_of_a_sum(a, b.drop_last());
        let last = b.last();
        assert(a + b =~= (a + b.drop_last()).push(last));
        assert(b =~= b.drop_last().push(last));
        (a + b.drop_last()).lemma_filter_push(last, spells);
        b.drop_last().lemma_filter_push(last, spells);
        assert(non_empty_paths(a + b) =~= non_empty_paths(a) + non_empty_paths(b));
    }
}

/// The roots to try are the overrides that spell anything, in the order they are given in,
/// and behind them the places under the home directory.
pub proof fn overrides_come_first(
    before: Seq<Seq<u8>>,
    path: Seq<u8>,
    after: Seq<Seq<u8>>,
    home: Option<Seq<u8>>,
)
    ensures
        path.len() > 0 ==> root_places(before + seq![path] + after, home) == root_places(
            before,
            None,
        ) + seq![path] + root_places(after, home),
        path.len() == 0 ==> root_places(before + seq![path] + after, home) == root_places(
            before + after,
            home,
        ),
        root_places(Seq::empty(), None) == Seq::<Seq<u8>>::empty(),
        home == Some(Seq::<u8>::empty()) ==> root_places(before, home) == root_places(before, None),
{
    let spells = |p: Seq<u8>| p.len() > 0;
    let none = Seq::<Seq<u8>>::empty();
    paths_kept_of_a_sum(before + seq![path], after);
    paths_kept_of_a_sum(before, seq![path]);
    paths_kept_of_a_sum(before, after);
    assert(non_empty_paths(none) =~= none) by {
        reveal(Seq::filter);
    }
    none.lemma_filter_push(path, spells);
    assert(none.push(path) =~= seq![path]);
    if path.len() > 0 {
        assert(root_places(before + seq![path] + after, home) =~= root_places(before, None)
            + seq![path] + root_places(after, home));
    } else {
        assert(root_places(before + seq![path] + after, home) =~= root_places(
            before + after,
            home,
        ));
    }
}

/// Under a home directory Steam is looked for in six places, its own symlinks first.
pub proof fn homes_are_searched(home: Seq<u8>)
    requires
        home.len() > 0,
    ensures
        root_places(Seq::empty(), Some(home)) == seq![
            fs_path::joined(home, encode_utf8(".steam/steam"@)),
            fs_path::joined(home, encode_utf8(".steam/root"@)),
            fs_path::joined(home, encode_utf8(".local/share/Steam"@)),
            fs_path::joined(home, encode_utf8(".steam/debian-installation"@)),
            fs_path::joined(
                home,
                encode_utf8(".var/app/com.valvesoftware.Steam/.local/share/Steam"@),
            ),
            fs_path::joined(home, encode_utf8(".steam"@)),
        ],
{
    let none = Seq::<Seq<u8>>::empty();
    assert(non_empty_paths(none) =~= none) by {
        reveal(Seq::filter);
    }
    assert(none + home_places(home) =~= home_places(home));
}

/// Where no client library was found, the user is told of every place under every root
/// that was looked in.
pub proof fn every_root_was_searched(probes: Seq<ProbeModel>, i: int, k: int)
    requires
        0 <= i < probes.len(),
        probes[i].canonical is Some,
        probes[i].is_dir,
        0 <= k < 3,
    ensures
        exists|j: int|
            {
                &&& 0 <= j <= i
                &&& (#[trigger] probes[j]).canonical is Some
                &&& probes[j].is_dir
                &&& fs_path::same_path(probes[j].canonical->0, probes[i].canonical->0)
                &&& searched_places(probes).contains(
                    fs_path::joined(probes[j].canonical->0, encode_utf8(library_names()[k])),
                )
            },
    decreases i,
{
    if exists|j: int|
        0 <= j < i && (#[trigger] probes[j]).is_root() && fs_path::same_path(
            probes[j].canonical->0,
            probes[i].canonical->0,
        ) {
        let j = choose|j: int|
            0 <= j < i && (#[trigger] probes[j]).is_root() && fs_path::same_path(
                probes[j].canonical->0,
                probes[i].canonical->0,
            );
        every_root_was_searched(probes, j, k);
        let m = choose|m: int|
            {
                &&& 0 <= m <= j
                &&& (#[trigger] probes[m]).canonical is Some
                &&& probes[m].is_dir
                &&& fs_path::same_path(probes[m].canonical->0, probes[j].canonical->0)
                &&& searched_places(probes).contains(
                    fs_path::joined(probes[m].canonical->0, encode_utf8(library_names()[k])),
                )
            };
        fs_path::being_one_path_is_mutual(
            probes[m].canonical->0,
            probes[j].canonical->0,
            probes[i].canonical->0,
        );
        assert(probes[m].canonical is Some);
    } else {
        let upto = probes.take(i + 1);
        assert(upto.last() == probes[i]);
        assert forall|j: int| 0 <= j < upto.len() - 1 implies !((#[trigger] upto[j]).is_root()
            && fs_path::same_path(upto[j].canonical->0, upto.last().canonical->0)) by {
            assert(upto[j] == probes[j]);
        }
        assert(last_is_new_root(upto));
        let places = library_places(probes[i].canonical->0);
        let before = searched_places(upto.drop_last());
        assert(searched_places(upto) == before + places);
        assert(searched_places(upto)[before.len() + k] == places[k]);
        searched_stays(probes, i + 1);
        assert(searched_places(probes)[before.len() + k] == places[k]);
        fs_path::being_one_path_is_mutual(
            probes[i].canonical->0,
            probes[i].canonical->0,
            probes[i].canonical->0,
        );
    }
}

proof fn searched_stays(probes: Seq<ProbeModel>, n: int)
    requires
        0 <= n <= probes.len(),
    ensures
        searched_places(probes.take(n)).len() <= searched_places(probes).len(),
        forall|m: int|
            0 <= m < searched_places(probes.take(n)).len() ==> searched_places(probes)[m]
                == #[trigger] searched_places(probes.take(n))[m],
    decreases probes.len() - n,
{
    if n < probes.len() {
        assert(probes.take(n + 1).drop_last() =~= probes.take(n));
        searched_stays(probes, n + 1);
        let less = searched_places(probes.take(n));
        let more = searched_places(probes.take(n + 1));
        assert forall|m: int| 0 <= m < less.len() implies searched_places(probes)[m]
            == #[trigger] less[m] by {
            assert(more[m] == less[m]);
        }
    } else {
        assert(probes.take(n) =~= probes);
    }
}

/// Only places under roots are told of.
pub proof fn only_roots_were_searched(probes: Seq<ProbeModel>, m: int) -> (r: (int, int))
    requires
        0 <= m < searched_places(probes).len(),
    ensures
        ({
            let (i, k) = r;
            &&& 0 <= i < probes.len() && 0 <= k < 3
            &&& probes[i].canonical is Some && probes[i].is_dir
            &&& searched_places(probes)[m] == fs_path::joined(
                probes[i].canonical->0,
                encode_utf8(library_names()[k]),
            )
        }),
    decreases probes.len(),
{
    let fewer = probes.drop_last();
    if m < searched_places(fewer).len() {
        only_roots_were_searched(fewer, m)
    } else {
        (probes.len() - 1, m - searched_places(fewer).len())
    }
}

/// A file name carries the number that stands between its ends, and no file name with
/// other ends carries any.
pub proof fn names_carry_what_stands_between(
    name: Seq<char>,
    prefix: Seq<char>,
    middle: Seq<char>,
    suffix: Seq<char>,
)
    ensures
        id_in_name(prefix + middle + suffix, prefix, suffix) == text::read_u32(middle),
        id_in_name(name, prefix, suffix) is Some ==> exists|digits: Seq<char>|
            name == #[trigger] (prefix + digits + suffix) && text::read_u32(digits) == id_in_name(
                name,
                prefix,
                suffix,
            ),
{
    let whole = prefix + middle + suffix;
    assert(whole.subrange(0, prefix.len() as int) =~= prefix);
    assert(whole.subrange(whole.len() - suffix.len(), whole.len() as int) =~= suffix);
    assert(whole.subrange(prefix.len() as int, whole.len() - suffix.len()) =~= middle);
    if id_in_name(name, prefix, suffix) is Some {
        let digits = name.subrange(prefix.len() as int, name.len() - suffix.len());
        assert forall|i: int| 0 <= i < prefix.len() implies name[i] == prefix[i] by {
            assert(name.subrange(0, prefix.len() as int)[i] == prefix[i]);
        }
        assert forall|i: int| 0 <= i < suffix.len() implies name[name.len() - suffix.len() + i]
            == suffix[i] by {
            assert(name.subrange(name.len() - suffix.len(), name.len() as int)[i] == suffix[i]);
        }
        assert(name =~= prefix + digits + suffix);
    }
}

/// An app's cached schema lies under the root, in `appcache/stats`, under its own name.
pub proof fn schemas_lie_under_the_root(root: Seq<u8>, app_id: u32)
    requires
        root.len() > 0,
        root.last() != 47,
    ensures
        fs_path::joined(stats_dir(root), encode_utf8(schema_file_name(app_id))) == root
            + encode_utf8(
            "/appcache/stats/UserGameStatsSchema_"@ + text::decimal(app_id as nat) + ".bin"@,
        ),
{
    reveal_strlit("appcache");
    reveal_strlit("stats");
    reveal_strlit("UserGameStatsSchema_");
    reveal_strlit(".bin");
    reveal_strlit("/appcache/stats/UserGameStatsSchema_");
    let digits = text::decimal(app_id as nat);
    text::decimal_denotes(app_id as nat);
    assert(forall|i: int| 0 <= i < digits.len() ==> text::is_digit(#[trigger] digits[i]));
    let name = schema_file_name(app_id);
    let whole = "/appcache/stats/UserGameStatsSchema_"@ + digits + ".bin"@;
    vstd::utf8::is_ascii_chars_encode_utf8("appcache"@);
    vstd::utf8::is_ascii_chars_encode_utf8("stats"@);
    vstd::utf8::is_ascii_chars_encode_utf8(name);
    vstd::utf8::is_ascii_chars_encode_utf8(whole);
    assert(whole =~= seq!['/'] + "appcache"@ + seq!['/'] + "stats"@ + seq!['/'] + name);
    assert(encode_utf8("appcache"@)[0] == 'a' as u8);
    assert(encode_utf8("stats"@)[0] == 's' as u8);
    assert(encode_utf8(name)[0] == 'U' as u8);
    let one = fs_path::joined(root, encode_utf8("appcache"@));
    assert(one =~= root + seq![47u8] + encode_utf8("appcache"@));
    assert(encode_utf8("appcache"@)[7] == 'e' as u8);
    assert(one.last() == 'e' as u8);
    let two = fs_path::joined(one, encode_utf8("stats"@));
    assert(two =~= one + seq![47u8] + encode_utf8("stats"@));
    assert(encode_utf8("stats"@)[4] == 's' as u8);
    assert(two.last() == 's' as u8);
    let three = fs_path::joined(two, encode_utf8(name));
    assert(three =~= two + seq![47u8] + encode_utf8(name));
    assert(three =~= root + encode_utf8(whole));
}

} // verus!
