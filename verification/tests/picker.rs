use std::collections::VecDeque;

use sam::callbacks::CallbackEvent;
use sam::fs_path::FsPath;
use sam::library::{RemoteApp, Source};
use sam::ordering::tidy;
use sam::picker::{
    describe_app, editor_program, game_card, AddStep, AppFacts, OpenFailure, PickerApp,
    OWNERSHIP_CHECKS_PER_FRAME,
};

fn app(app_id: u32, name: &str, has_schema: bool) -> AppFacts {
    AppFacts {
        app_id,
        owned: true,
        has_schema,
        name: Some(name.to_string()),
        capsule_url: None,
    }
}

fn stranger(app_id: u32) -> AppFacts {
    AppFacts {
        app_id,
        owned: false,
        has_schema: false,
        name: None,
        capsule_url: None,
    }
}

fn picker() -> PickerApp {
    PickerApp::new(&vec![
        app(30, "beta", true),
        stranger(40),
        app(20, "Alpha", false),
        app(10, "ALPHA", true),
    ])
}

fn ids(picker: &PickerApp) -> Vec<u32> {
    picker.games.iter().map(|g| g.app_id).collect()
}

fn remote(app_id: u32) -> RemoteApp {
    RemoteApp {
        app_id,
        kind: "demo".to_string(),
    }
}

#[test]
fn owned_games_are_listed_by_name() {
    let picker = picker();
    assert_eq!(ids(&picker), vec![20, 10, 30]);
    assert_eq!(picker.status, "3 games found locally.");
    assert_eq!(picker.games[0].source, Source::Installed);
    assert_eq!(picker.games[1].source, Source::CachedSchema);
    assert_eq!(picker.games[2].kind, "normal");
    assert!(picker.hide_without_schema);
}

#[test]
fn games_of_one_name_keep_their_order() {
    let list = vec![
        describe_app(app(3, "b", true), "normal", Source::Remote),
        describe_app(app(2, "A", true), "normal", Source::Remote),
        describe_app(app(5, "B", true), "normal", Source::Remote),
        describe_app(app(5, "b", true), "normal", Source::Remote),
        describe_app(app(1, "ab", true), "normal", Source::Remote),
        describe_app(app(9, "", true), "normal", Source::Remote),
    ];
    let tidied: Vec<u32> = tidy(&list).iter().map(|g| g.app_id).collect();
    assert_eq!(tidied, vec![9, 2, 1, 3, 5]);
}

#[test]
fn games_are_searched_by_name_and_id() {
    let mut picker = picker();
    assert_eq!(picker.visible_games(), vec![1, 2]);
    picker.hide_without_schema = false;
    assert_eq!(picker.visible_games(), vec![0, 1, 2]);
    picker.search = " alph ".into();
    assert_eq!(picker.visible_games(), vec![0, 1]);
    picker.search = "30".into();
    assert_eq!(picker.visible_games(), vec![2]);
    assert!(picker.matches(&picker.games[2]));
    picker.search = "gamma".into();
    assert_eq!(picker.visible_games(), Vec::<usize>::new());
    assert_eq!(picker.games_message(0), Some("No games match the current filter."));
    assert_eq!(picker.games_message(2), None);
    picker.games.clear();
    assert_eq!(
        picker.games_message(0),
        Some("No games found. Try \"Find more…\" to search your whole library.")
    );
}

#[test]
fn the_master_list_is_worked_through_in_slices() {
    let mut picker = picker();
    assert!(picker.begin_slice().is_none());
    assert!(picker.start_remote_scan());
    assert!(!picker.start_remote_scan());
    assert!(picker.scanning());
    assert_eq!(picker.status, "Downloading the full game list...");
    let list: VecDeque<RemoteApp> = (0..250).map(remote).collect();
    picker.remote_arrived(Ok(list));
    assert!(!picker.downloading);
    assert_eq!(picker.remote_total, 250);
    assert!(!picker.start_remote_scan());

    let mut slice = picker.begin_slice().unwrap();
    assert_eq!(slice.left, OWNERSHIP_CHECKS_PER_FRAME);
    let mut asked = 0;
    while let Some(candidate) = picker.next_candidate(&mut slice) {
        asked += 1;
        let facts = if candidate.app_id == 5 {
            app(5, "Aaa", false)
        } else {
            stranger(candidate.app_id)
        };
        picker.add_candidate(&mut slice, facts, &candidate.kind);
    }
    // 10, 20 and 30 are listed already.
    assert_eq!(asked, 197);
    assert!(slice.added);
    picker.finish_slice(slice);
    assert_eq!(picker.remote_seen, 200);
    assert_eq!(ids(&picker), vec![5, 20, 10, 30]);
    assert_eq!(picker.games[0].kind, "demo");
    assert_eq!(picker.games[0].source, Source::Remote);
    assert_eq!(picker.status, "Checking ownership... 200/250 (4 games so far)");
    assert!(picker.needs_repaint(0));

    let mut slice = picker.begin_slice().unwrap();
    while let Some(candidate) = picker.next_candidate(&mut slice) {
        picker.add_candidate(&mut slice, stranger(candidate.app_id), &candidate.kind);
    }
    assert!(!slice.added);
    picker.finish_slice(slice);
    assert_eq!(picker.status, "4 games.");
    assert!(!picker.needs_repaint(0));
    assert!(picker.needs_repaint(1));
}

#[test]
fn a_candidate_that_was_just_added_is_passed_over() {
    let mut picker = PickerApp::new(&Vec::new());
    picker.start_remote_scan();
    picker.remote_arrived(Ok(VecDeque::from(vec![remote(7), remote(7), remote(8)])));
    let mut slice = picker.begin_slice().unwrap();
    let first = picker.next_candidate(&mut slice).unwrap();
    picker.add_candidate(&mut slice, app(first.app_id, "Seven", true), &first.kind);
    let second = picker.next_candidate(&mut slice).unwrap();
    assert_eq!(second.app_id, 8);
    assert_eq!(picker.remote_seen, 3);
    picker.add_candidate(&mut slice, stranger(8), &second.kind);
    assert!(picker.next_candidate(&mut slice).is_none());
    picker.finish_slice(slice);
    assert_eq!(ids(&picker), vec![7]);
}

#[test]
fn a_failed_download_leaves_the_local_games() {
    let mut picker = picker();
    picker.start_remote_scan();
    picker.remote_arrived(Err("no network".into()));
    assert_eq!(picker.error.as_deref(), Some("no network"));
    assert_eq!(picker.status, "Showing locally discovered games.");
    assert!(!picker.scanning());
    picker.start_remote_scan();
    assert_eq!(picker.error, None);
    picker.remote_lost();
    assert!(!picker.scanning());
    picker.rescan_local(&vec![app(1, "One", true)]);
    assert_eq!(picker.status, "1 games found locally.");
}

#[test]
fn games_are_described_anew_when_steam_knows_more() {
    let mut picker = picker();
    let changed = |app_id, result| CallbackEvent::AppDataChanged { app_id, result };
    assert_eq!(picker.on_event(changed(30, false)), None);
    assert_eq!(picker.on_event(changed(31, true)), None);
    assert_eq!(picker.on_event(CallbackEvent::Other { id: 1 }), None);
    let index = picker.on_event(changed(20, true)).unwrap();
    picker.refresh(index, app(20, "Renamed", true));
    assert_eq!(picker.games[index].name, "Renamed");
    assert_eq!(picker.games[index].source, Source::Installed);
    assert!(picker.games[index].has_schema);
}

#[test]
fn games_can_be_added_by_id() {
    let mut picker = picker();
    picker.add_id = " x1 ".into();
    assert_eq!(picker.add_by_id(), None);
    assert_eq!(picker.error.as_deref(), Some("'x1' is not a valid app ID."));
    picker.add_id = " 77 ".into();
    assert_eq!(picker.add_by_id(), Some(77));
    assert_eq!(picker.add_owned(77, false), AddStep::Done);
    assert_eq!(picker.error.as_deref(), Some("You do not own app 77."));
    assert_eq!(picker.add_owned(77, true), AddStep::Describe);
    picker.add_described(app(77, "aaa", false));
    assert_eq!(ids(&picker), vec![77, 20, 10, 30]);
    assert_eq!(picker.error, None);
    assert_eq!(picker.add_id, "");
    picker.add_id = "30".into();
    assert_eq!(picker.add_by_id(), Some(30));
    assert_eq!(picker.add_owned(30, true), AddStep::Done);
    assert_eq!(picker.search, "30");
    assert_eq!(picker.add_id, "");
}

#[test]
fn cards_warn_of_a_missing_schema() {
    let picker = picker();
    let card = game_card(&picker.games[0]);
    assert_eq!((card.name.as_str(), card.id.as_str()), ("Alpha", "20"));
    assert_eq!(card.warning, Some("no schema"));
    assert_eq!(game_card(&picker.games[1]).warning, None);
}

#[test]
fn the_editor_is_run_from_an_appimage_by_its_image() {
    let own = || Ok(FsPath::from_text("/usr/bin/sam"));
    let image = || Some(FsPath::from_text("/home/u/sam.AppImage"));
    assert_eq!(editor_program(image(), own()).ok().unwrap().display(), "/home/u/sam.AppImage");
    assert_eq!(editor_program(None, own()).ok().unwrap().display(), "/usr/bin/sam");
    let empty = Some(FsPath::from_text(""));
    assert_eq!(editor_program(empty, own()).ok().unwrap().display(), "/usr/bin/sam");
    let mut picker = picker();
    match editor_program(None, Err("gone".into())) {
        Err(failure) => picker.editor_opened(Err(failure)),
        Ok(_) => panic!("there is no program"),
    }
    assert_eq!(
        picker.error.as_deref(),
        Some("Could not locate this executable: gone")
    );
    picker.editor_opened(Err(OpenFailure::NotStarted("busy".into())));
    assert_eq!(picker.error.as_deref(), Some("Could not open the editor: busy"));
    picker.editor_opened(Ok(()));
    assert_eq!(picker.error, None);
}
