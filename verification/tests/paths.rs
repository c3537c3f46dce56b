use std::path::Path;

use sam::error::Error;
use sam::fs_path::FsPath;
use sam::paths::{
    candidate_roots, client_library_candidates, parse_id_in_name, RootProbe, SteamPaths,
};
use sam::vdf;

fn path(s: &str) -> FsPath {
    FsPath::from_text(s)
}

fn spelled(p: &FsPath) -> String {
    p.display()
}

/// Which of the client libraries under a root are files.
fn libraries(root: &FsPath) -> [bool; 3] {
    let candidates = client_library_candidates(root);
    [
        Path::new(&spelled(&candidates[0])).is_file(),
        Path::new(&spelled(&candidates[1])).is_file(),
        Path::new(&spelled(&candidates[2])).is_file(),
    ]
}

/// What the file system says of a candidate root.
fn probe(root: &FsPath) -> RootProbe {
    match Path::new(&spelled(root)).canonicalize() {
        Ok(found) => {
            let canonical = path(found.to_str().unwrap_or(""));
            RootProbe {
                is_dir: found.is_dir(),
                libraries: libraries(&canonical),
                canonical: Some(canonical),
            }
        }
        Err(_) => RootProbe {
            canonical: None,
            is_dir: false,
            libraries: [false; 3],
        },
    }
}

fn root_at(s: &str, libraries: [bool; 3]) -> RootProbe {
    RootProbe {
        canonical: Some(path(s)),
        is_dir: true,
        libraries,
    }
}

#[test]
fn missing_root_is_reported() {
    let root = path("/nonexistent-steam-root-for-tests");
    let resolved = Path::new("/nonexistent-steam-root-for-tests")
        .canonicalize()
        .map(|p| path(p.to_str().unwrap_or("")))
        .map_err(|e| e.to_string());
    let err = SteamPaths::from_root(resolved, libraries(&root));
    assert!(err.is_err());
}

#[test]
fn discovery_matches_this_machine_when_steam_is_present() {
    // Informational rather than assertive: CI has no Steam install.
    let roots = candidate_roots(&Vec::new(), Some(path("/root")));
    let probes: Vec<RootProbe> = roots.iter().map(probe).collect();
    match SteamPaths::discover(&probes) {
        Ok(paths) => {
            assert!(Path::new(&spelled(paths.client_library())).is_file());
            assert!(Path::new(&spelled(paths.root())).is_dir());
        }
        Err(e) => println!("no Steam on this machine ({}); skipping", e.message()),
    }
}

#[test]
fn roots_are_tried_in_order() {
    let overrides = vec![path("/opt/steam"), path("")];
    let roots = candidate_roots(&overrides, Some(path("/home/u")));
    let shown: Vec<String> = roots.iter().map(spelled).collect();
    assert_eq!(
        shown,
        vec![
            "/opt/steam",
            "/home/u/.steam/steam",
            "/home/u/.steam/root",
            "/home/u/.local/share/Steam",
            "/home/u/.steam/debian-installation",
            "/home/u/.var/app/com.valvesoftware.Steam/.local/share/Steam",
            "/home/u/.steam",
        ]
    );
    assert_eq!(candidate_roots(&Vec::new(), None).len(), 0);
    assert_eq!(candidate_roots(&Vec::new(), Some(path(""))).len(), 0);
}

#[test]
fn a_root_without_a_library_is_skipped() {
    let probes = vec![
        RootProbe {
            canonical: None,
            is_dir: false,
            libraries: [true; 3],
        },
        root_at("/stale", [false; 3]),
        root_at("/good", [false, true, true]),
        root_at("/late", [true; 3]),
    ];
    let paths = SteamPaths::discover(&probes).unwrap();
    assert_eq!(spelled(paths.root()), "/good");
    assert_eq!(spelled(paths.client_library()), "/good/steamrt64/steamclient.so");
}

#[test]
fn places_that_were_searched_are_named_once() {
    let probes = vec![
        root_at("/a", [false; 3]),
        root_at("/a/", [false; 3]),
        RootProbe {
            canonical: Some(path("/file")),
            is_dir: false,
            libraries: [true; 3],
        },
        root_at("/b", [false; 3]),
    ];
    match SteamPaths::discover(&probes) {
        Err(Error::ClientLibraryNotFound { searched }) => {
            assert_eq!(searched.len(), 6);
            assert_eq!(spelled(&searched[3]), "/b/linux64/steamclient.so");
        }
        _ => panic!("nothing should be found"),
    }
    match SteamPaths::discover(&Vec::new()) {
        Err(Error::SteamNotFound) => {}
        _ => panic!("no root is there"),
    }
}

#[test]
fn an_explicit_root_is_taken_as_it_is() {
    let paths = SteamPaths::from_root(Ok(path("/s")), [true, false, false]).unwrap();
    assert_eq!(spelled(paths.client_library()), "/s/linux64/steamclient.so");
    assert_eq!(spelled(&paths.stats_cache_dir()), "/s/appcache/stats");
    assert_eq!(
        spelled(&paths.schema_path(620)),
        "/s/appcache/stats/UserGameStatsSchema_620.bin"
    );
    assert_eq!(paths.clone(), paths);
    match SteamPaths::from_root(Ok(path("/s")), [false; 3]) {
        Err(Error::ClientLibraryNotFound { searched }) => assert_eq!(searched.len(), 3),
        _ => panic!("no library is there"),
    }
}

#[test]
fn cached_schemas_are_listed_in_order() {
    let paths = SteamPaths::from_root(Ok(path("/s")), [true; 3]).unwrap();
    let names: Vec<String> = [
        "UserGameStatsSchema_400.bin",
        "UserGameStatsSchema_20.bin",
        "UserGameStatsSchema_0400.bin",
        "UserGameStatsSchema_x.bin",
        ".bin",
    ]
    .iter()
    .map(|s| s.to_string())
    .collect();
    assert_eq!(paths.apps_with_cached_schema(&names), vec![20, 400]);
    let own = paths.schema_path(77).display();
    let file = own.rsplit('/').next().unwrap().to_string();
    assert_eq!(parse_id_in_name(&file, "UserGameStatsSchema_", ".bin"), Some(77));
    assert_eq!(parse_id_in_name("ab", "ab", "b"), None);
}

#[test]
fn paths_are_joined_and_told_apart_like_the_system_does() {
    assert_eq!(spelled(&path("/a").join("b")), "/a/b");
    assert_eq!(spelled(&path("/a/").join("b")), "/a/b");
    assert_eq!(spelled(&path("/a").join("/b")), "/b");
    assert_eq!(spelled(&path("").join("b")), "b");
    for (a, b) in [
        ("/a/b", "/a//b/"),
        ("/a/./b", "/a/b"),
        ("a/.", "a"),
        ("./a", "a"),
        ("/a", "a"),
        ("/", "//"),
        (".", ""),
        ("..", "."),
        ("a/../b", "b"),
        ("é/x", "é/x"),
    ] {
        assert_eq!(path(a) == path(b), Path::new(a) == Path::new(b), "{a} and {b}");
    }
    assert_eq!(FsPath::from_bytes(vec![b'/', 0xff]).display(), "/\u{fffd}");
}

#[test]
fn every_error_has_a_message() {
    assert_eq!(
        Error::SteamNotFound.message(),
        "no Steam installation found (looked in ~/.steam/steam, ~/.local/share/Steam and the Flatpak location)"
    );
    assert_eq!(
        Error::ClientLibraryNotFound {
            searched: vec![path("/a"), path("/b")]
        }
        .message(),
        "steamclient.so not found; looked in: /a, /b"
    );
    assert_eq!(
        Error::LoadLibrary {
            path: path("/a"),
            source: "broken".into()
        }
        .message(),
        "failed to load /a: broken"
    );
    assert_eq!(
        Error::MissingExport("CreateInterface").message(),
        "steamclient.so does not export CreateInterface"
    );
    assert_eq!(
        Error::CreateInterface("SteamClient018").message(),
        "CreateInterface returned null for SteamClient018"
    );
    assert_eq!(Error::CreateSteamPipe.message(), "failed to create a Steam pipe");
    assert_eq!(
        Error::ConnectToGlobalUser.message(),
        "failed to connect to the global Steam user. Start Steam and sign in, then try again. If the account is in a Family Share session elsewhere, the library may be locked."
    );
    assert_eq!(
        Error::GetInterface("ISteamApps").message(),
        "Steam returned no ISteamApps interface"
    );
    assert_eq!(
        Error::AppIdMismatch {
            requested: 620,
            actual: 7
        }
        .message(),
        "app ID mismatch: asked for 620, Steam reports 7"
    );
    assert_eq!(
        Error::VtableSanityCheckFailed("x".into()).message(),
        "steamclient.so vtable layout is not what this build expects (x). Refusing to continue, because calling through a mismatched vtable can corrupt your stats."
    );
    assert_eq!(Error::Io("gone".into()).message(), "gone");
    assert_eq!(
        Error::from(vdf::Error::TrailingData).message(),
        "schema parse error: trailing data after root container"
    );
}
