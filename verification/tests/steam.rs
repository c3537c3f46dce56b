use sam::callbacks::{
    decode, payload_size, AppDataChanged, CallbackEvent, CallbackPump, PollReply, PollStep,
    UserStatsReceived, APP_DATA_CHANGED, APP_DATA_CHANGED_SIZE, CALLBACK_MESSAGE_SIZE, POLL_LIMIT,
    RESULT_OK, USER_STATS_RECEIVED, USER_STATS_RECEIVED_SIZE, USER_STATS_STORED,
};
use sam::client::{
    app_data_value, check_slot, client_slots, releases, user_stats_slots, Getter, Release, Reply,
    Stage,
};
use sam::error::Error;
use sam::fs_path::FsPath;
use sam::user_stats::{
    set_achievement_slot, OrderConfidence, OverloadOrder, ProbeStep, UserStats,
};

fn path(s: &str) -> FsPath {
    FsPath::from_text(s)
}

fn names(list: &[&str]) -> Vec<String> {
    list.iter().map(|s| s.to_string()).collect()
}

#[test]
fn callback_structs_match_the_linux_pack4_abi() {
    // If these ever change, callbacks silently decode to garbage.
    assert_eq!(CALLBACK_MESSAGE_SIZE, 20);
    assert_eq!(USER_STATS_RECEIVED_SIZE, 20);
}

fn stats_payload(game_id: u64, result: i32, steam_id: u64) -> Vec<u8> {
    let mut b = Vec::new();
    b.extend_from_slice(&game_id.to_le_bytes());
    b.extend_from_slice(&result.to_le_bytes());
    b.extend_from_slice(&steam_id.to_le_bytes());
    b
}

#[test]
fn callbacks_are_decoded_by_their_layout() {
    let payload = stats_payload(620, -3, 76_561_197_960_287_930);
    assert_eq!(
        decode(USER_STATS_RECEIVED, Some(&payload)),
        Some(CallbackEvent::UserStatsReceived {
            game_id: 620,
            result: -3,
            steam_id: 76_561_197_960_287_930,
        })
    );
    assert_eq!(
        decode(USER_STATS_STORED, Some(&payload)),
        Some(CallbackEvent::UserStatsStored {
            game_id: 620,
            result: -3,
        })
    );
    assert_eq!(
        decode(APP_DATA_CHANGED, Some(&[0x6c, 2, 0, 0, 7, 0, 0, 0])),
        Some(CallbackEvent::AppDataChanged {
            app_id: 620,
            result: true,
        })
    );
    assert_eq!(
        decode(APP_DATA_CHANGED, Some(&[0x6c, 2, 0, 0, 0, 9, 9, 9])),
        Some(CallbackEvent::AppDataChanged {
            app_id: 620,
            result: false,
        })
    );
    assert_eq!(decode(5, None), Some(CallbackEvent::Other { id: 5 }));
    assert_eq!(RESULT_OK, 1);
}

#[test]
fn short_or_absent_payloads_say_nothing() {
    let payload = stats_payload(1, 1, 1);
    assert_eq!(decode(USER_STATS_RECEIVED, None), None);
    assert_eq!(decode(USER_STATS_RECEIVED, Some(&payload[..19])), None);
    assert_eq!(decode(APP_DATA_CHANGED, Some(&payload[..7])), None);
    assert_eq!(payload_size(USER_STATS_RECEIVED, true, 20), Some(20));
    assert_eq!(payload_size(USER_STATS_STORED, true, 24), Some(20));
    assert_eq!(payload_size(APP_DATA_CHANGED, true, 8), Some(APP_DATA_CHANGED_SIZE));
    assert_eq!(payload_size(APP_DATA_CHANGED, true, 5), None);
    assert_eq!(payload_size(USER_STATS_RECEIVED, false, 20), None);
    assert_eq!(payload_size(USER_STATS_RECEIVED, true, -1), Some(20));
    assert_eq!(payload_size(APP_DATA_CHANGED, true, i32::MIN), Some(8));
    assert_eq!(payload_size(5, true, 20), None);
    assert_eq!(UserStatsReceived::read(&payload).unwrap().steam_id_user, 1);
    assert_eq!(AppDataChanged::read(&payload).unwrap().app_id, 1);
}

/// Drains a queue, and says which steps were taken.
fn drain(mut pump: CallbackPump, queue: Vec<(i32, Option<Vec<u8>>)>) -> (String, Vec<CallbackEvent>) {
    let mut steps = String::new();
    let mut queue = queue.into_iter();
    loop {
        match pump.step() {
            PollStep::Ask => {
                steps.push('a');
                pump.advance(match queue.next() {
                    Some((id, payload)) => PollReply::Callback { id, payload },
                    None => PollReply::Empty,
                });
            }
            PollStep::Free => {
                steps.push('f');
                pump.advance(PollReply::Freed);
            }
            PollStep::Done => return (steps, pump.events()),
        }
    }
}

#[test]
fn every_callback_is_freed_before_the_next_is_asked_for() {
    let queue = vec![
        (7, None),
        (USER_STATS_RECEIVED, None),
        (USER_STATS_STORED, Some(stats_payload(1, 2, 3))),
    ];
    let (steps, events) = drain(CallbackPump::poll(), queue);
    assert_eq!(steps, "afafafa");
    assert_eq!(
        events,
        vec![
            CallbackEvent::Other { id: 7 },
            CallbackEvent::UserStatsStored {
                game_id: 1,
                result: 2
            }
        ]
    );
}

#[test]
fn a_flood_of_callbacks_is_bounded() {
    let flood = || (0..1000).map(|id| (id, None)).collect::<Vec<_>>();
    let (steps, events) = drain(CallbackPump::poll_bounded(2), flood());
    assert_eq!(steps, "afaf");
    assert_eq!(
        events,
        vec![CallbackEvent::Other { id: 0 }, CallbackEvent::Other { id: 1 }]
    );
    assert_eq!(drain(CallbackPump::poll_bounded(0), flood()).0, "");
    assert_eq!(drain(CallbackPump::poll(), flood()).1.len(), POLL_LIMIT);
    let mut pump = CallbackPump::poll();
    pump.advance(PollReply::Freed);
    assert_eq!(pump.step(), PollStep::Ask);
}

#[test]
fn slots_must_lie_in_the_library() {
    let library = path("/s/steamclient.so");
    let slots = client_slots();
    assert!(check_slot("I", &library, slots[0], &Some(path("/s//steamclient.so"))).is_ok());
    assert_eq!(
        check_slot("I", &library, slots[2], &Some(path("/lib/libc.so")))
            .unwrap_err()
            .message(),
        Error::VtableSanityCheckFailed(
            "I slot 13 (GetISteamUserStats) resolves into /lib/libc.so rather than /s/steamclient.so"
                .into()
        )
        .message()
    );
    match check_slot("I", &library, slots[0], &None) {
        Err(Error::VtableSanityCheckFailed(detail)) => {
            assert_eq!(detail, "I slot 0 (CreateSteamPipe) is null or unresolvable")
        }
        _ => panic!("an unresolvable slot is refused"),
    }
}

/// Opens a session against scripted answers, and says which steps were taken.
fn open(app_id: Option<u32>, script: Vec<Reply>) -> (Vec<String>, Stage) {
    let library = path("/s/steamclient.so");
    let mut stage = Stage::Client;
    let mut steps = Vec::new();
    for reply in script {
        steps.push(match &stage {
            Stage::ReleaseUser { pipe, user, .. } => format!("release user {user} of {pipe}"),
            Stage::ReleasePipe { pipe, .. } => format!("release pipe {pipe}"),
            Stage::Fetch { getter, .. } => getter.version().to_string(),
            Stage::Slots { next } => client_slots()[*next].name.to_string(),
            Stage::Check { getter, next, .. } => getter.slots()[*next].name.to_string(),
            Stage::AppId { .. } => "app id".to_string(),
            other => format!("{other:?}"),
        });
        stage = stage.advance(reply, app_id, &library);
    }
    (steps, stage)
}

fn verified() -> Vec<Reply> {
    let mut script = vec![Reply::Interface { given: true }];
    script.extend(found(client_slots().len()));
    script
}

fn found(count: usize) -> Vec<Reply> {
    (0..count)
        .map(|_| Reply::Owner {
            path: Some(path("/s/steamclient.so")),
        })
        .collect()
}

/// The answers by which every interface is fetched and checked.
fn fetched() -> Vec<Reply> {
    let mut script = Vec::new();
    for slots in [1, 1, 0, 1, 3] {
        script.push(Reply::Interface { given: true });
        script.extend(found(slots));
    }
    script
}

fn connected() -> Vec<Reply> {
    let mut script = verified();
    script.push(Reply::Handle { value: 3 });
    script.push(Reply::Handle { value: 9 });
    script
}

#[test]
fn a_session_opens_step_by_step() {
    let mut script = connected();
    script.extend(fetched());
    let (steps, stage) = open(None, script);
    assert_eq!(stage, Stage::Opened { pipe: 3, user: 9 });
    assert_eq!(
        steps[1..9],
        [
            "CreateSteamPipe",
            "ConnectToGlobalUser",
            "GetISteamUserStats",
            "GetISteamApps",
            "ReleaseSteamPipe",
            "ReleaseUser",
            "GetISteamUser",
            "GetISteamUtils"
        ]
    );
    assert_eq!(
        steps[11..],
        [
            "SteamUtils005",
            "GetAppID",
            "SteamUser012",
            "GetSteamID",
            "STEAMUSERSTATS_INTERFACE_VERSION013",
            "STEAMAPPS_INTERFACE_VERSION001",
            "GetAppData",
            "STEAMAPPS_INTERFACE_VERSION008",
            "GetCurrentGameLanguage",
            "IsSubscribedApp",
            "BIsAppInstalled"
        ]
    );
}

#[test]
fn a_session_for_an_app_asks_who_it_is() {
    let mut script = connected();
    script.extend(fetched());
    script.push(Reply::AppId { value: 620 });
    let (_, stage) = open(Some(620), script);
    assert_eq!(stage, Stage::Opened { pipe: 3, user: 9 });

    let mut script = connected();
    script.extend(fetched());
    script.push(Reply::AppId { value: 7 });
    script.push(Reply::Released);
    script.push(Reply::Released);
    let (steps, stage) = open(Some(620), script);
    assert_eq!(
        stage,
        Stage::Failed {
            error: Error::AppIdMismatch {
                requested: 620,
                actual: 7
            }
        }
    );
    assert_eq!(steps[22..], ["app id", "release user 9 of 3", "release pipe 3"]);
}

#[test]
fn what_was_acquired_is_given_back_on_failure() {
    let (_, stage) = open(None, vec![Reply::Interface { given: false }]);
    assert_eq!(
        stage,
        Stage::Failed {
            error: Error::CreateInterface("SteamClient018")
        }
    );

    let mut script = verified();
    script.push(Reply::Handle { value: 0 });
    let (_, stage) = open(None, script);
    assert_eq!(
        stage,
        Stage::Failed {
            error: Error::CreateSteamPipe
        }
    );

    let mut script = verified();
    script.push(Reply::Handle { value: 3 });
    script.push(Reply::Handle { value: 0 });
    script.push(Reply::Released);
    let (steps, stage) = open(None, script);
    assert_eq!(
        stage,
        Stage::Failed {
            error: Error::ConnectToGlobalUser
        }
    );
    assert_eq!(steps[11..], ["release pipe 3"]);

    let mut script = connected();
    script.push(Reply::Interface { given: true });
    script.extend(found(1));
    script.push(Reply::Interface { given: false });
    script.push(Reply::Released);
    script.push(Reply::Released);
    let (steps, stage) = open(None, script);
    assert_eq!(
        stage,
        Stage::Failed {
            error: Error::GetInterface("ISteamUser")
        }
    );
    assert_eq!(steps[14..], ["release user 9 of 3", "release pipe 3"]);
}

#[test]
fn a_foreign_slot_stops_the_opening_before_anything_is_called() {
    let script = vec![
        Reply::Interface { given: true },
        Reply::Owner {
            path: Some(path("/s/steamclient.so")),
        },
        Reply::Owner { path: None },
    ];
    let (_, stage) = open(None, script);
    match stage {
        Stage::Failed {
            error: Error::VtableSanityCheckFailed(detail),
        } => assert_eq!(
            detail,
            "SteamClient018 slot 2 (ConnectToGlobalUser) is null or unresolvable"
        ),
        _ => panic!("the slot is refused"),
    }
}

#[test]
fn a_foreign_slot_of_a_fetched_interface_stops_the_opening() {
    let mut script = connected();
    script.push(Reply::Interface { given: true });
    script.push(Reply::Owner {
        path: Some(path("/lib/libc.so")),
    });
    script.push(Reply::Released);
    script.push(Reply::Released);
    let (steps, stage) = open(Some(620), script);
    assert_eq!(steps[13..], ["release user 9 of 3", "release pipe 3"]);
    match stage {
        Stage::Failed {
            error: Error::VtableSanityCheckFailed(detail),
        } => assert_eq!(
            detail,
            "SteamUtils005 slot 9 (GetAppID) resolves into /lib/libc.so rather than /s/steamclient.so"
        ),
        _ => panic!("the slot is refused"),
    }
}

#[test]
fn every_slot_that_is_called_is_checked() {
    let library = path("/s/steamclient.so");
    let slots = user_stats_slots();
    for index in [0, 1, 2, 3, 5, 6, 7, 8, 9, 11, 13, 14, 15, 20] {
        let place = slots.iter().position(|slot| slot.index == index).unwrap();
        let mut owners = vec![Some(library.clone()); slots.len()];
        owners[place] = None;
        assert!(matches!(
            UserStats::new(&library, &owners),
            Err(Error::VtableSanityCheckFailed(_))
        ));
    }
    for index in [0, 1, 2, 4, 5, 9, 13, 15] {
        assert!(client_slots().iter().any(|slot| slot.index == index));
    }
}

#[test]
fn an_answer_to_another_question_changes_nothing() {
    let stage = Stage::Pipe.advance(Reply::Released, None, &path("/x"));
    assert_eq!(stage, Stage::Pipe);
    assert_eq!(Getter::Apps001.slot(), 15);
    assert_eq!(Getter::Utils.slot(), 9);
    assert_eq!(Getter::Apps008.after(), None);
    assert_eq!(Getter::Apps008.label(), "ISteamApps");
}

#[test]
fn handles_are_released_in_reverse() {
    assert_eq!(
        releases(3, 9),
        vec![Release::User { pipe: 3, user: 9 }, Release::Pipe { pipe: 3 }]
    );
    assert_eq!(releases(3, 0), vec![Release::Pipe { pipe: 3 }]);
    assert_eq!(releases(0, 0), vec![]);
}

#[test]
fn app_data_ends_at_a_nul_or_where_it_was_written() {
    let mut buffer = b"Portal 2\0rest".to_vec();
    assert_eq!(app_data_value(&buffer, 9).as_deref(), Some("Portal 2"));
    assert_eq!(app_data_value(&buffer, 6).as_deref(), Some("Portal"));
    assert_eq!(app_data_value(&buffer, 900).as_deref(), Some("Portal 2"));
    assert_eq!(app_data_value(&buffer, 0), None);
    assert_eq!(app_data_value(&buffer, -1), None);
    buffer[0] = 0;
    assert_eq!(app_data_value(&buffer, 9), None);
    assert_eq!(app_data_value(&vec![0xff, b'x'], 2).as_deref(), Some("\u{fffd}x"));
}

fn usable() -> UserStats {
    let library = path("/s/steamclient.so");
    let owners = vec![Some(path("/s/steamclient.so")); user_stats_slots().len()];
    match UserStats::new(&library, &owners) {
        Ok(stats) => stats,
        Err(e) => panic!("{}", e.message()),
    }
}

#[test]
fn stats_start_from_what_the_abi_leads_one_to_expect() {
    let stats = usable();
    assert_eq!(stats.order(), OverloadOrder::IntThenFloat);
    assert_eq!(stats.confidence(), &OrderConfidence::Assumed("not yet probed"));

    let library = path("/s/steamclient.so");
    let mut owners = vec![Some(path("/s/steamclient.so")); user_stats_slots().len()];
    owners[11] = None;
    match UserStats::new(&library, &owners) {
        Err(Error::VtableSanityCheckFailed(detail)) => assert_eq!(
            detail,
            "ISteamUserStats013 slot 20 (ResetAllStats) is null or unresolvable"
        ),
        _ => panic!("the slot is refused"),
    }
    owners.truncate(2);
    assert!(UserStats::new(&library, &owners).is_err());
}

/// Resolves the order against a Steam that answers by `accepts`.
fn resolve(
    integers: &[&str],
    floats: &[&str],
    accepts: impl Fn(&str) -> (bool, bool),
) -> (Vec<String>, UserStats, Option<String>) {
    let mut stats = usable();
    let mut asked = Vec::new();
    let mut answers = Vec::new();
    loop {
        match stats.resolve_overload_order(&names(integers), &names(floats), &answers) {
            ProbeStep::Ask { name } => {
                answers.push(accepts(&name));
                asked.push(name);
            }
            ProbeStep::Done { resolution } => {
                assert_eq!(resolution.order, stats.order());
                assert_eq!(&resolution.confidence, stats.confidence());
                return (asked, stats, resolution.probe_stat);
            }
        }
    }
}

#[test]
fn the_overload_order_is_proved_by_probing() {
    let (asked, stats, probe) = resolve(&["a", "b\0c", "d"], &["f"], |name| match name {
        "a" => (true, true),
        "d" => (false, true),
        _ => (false, false),
    });
    assert_eq!(asked, vec!["a", "d"]);
    assert_eq!(stats.order(), OverloadOrder::FloatThenInt);
    assert_eq!(stats.confidence(), &OrderConfidence::Confirmed);
    assert_eq!(probe.as_deref(), Some("d"));

    let (_, stats, probe) = resolve(&["a"], &["f"], |name| match name {
        "f" => (false, true),
        _ => (false, false),
    });
    assert_eq!(stats.order(), OverloadOrder::IntThenFloat);
    assert_eq!(probe.as_deref(), Some("f"));
}

#[test]
fn an_order_that_cannot_be_proved_is_assumed() {
    let (asked, stats, probe) = resolve(&["a"], &["f"], |_| (true, true));
    assert_eq!(asked, vec!["a", "f"]);
    assert_eq!(stats.order(), OverloadOrder::IntThenFloat);
    assert_eq!(
        stats.confidence(),
        &OrderConfidence::Assumed("no stat produced an unambiguous result")
    );
    assert_eq!(probe, None);

    let (asked, stats, _) = resolve(&[], &[], |_| (true, false));
    assert!(asked.is_empty());
    assert_eq!(
        stats.confidence(),
        &OrderConfidence::Assumed("this app declares no numeric stats")
    );
}

#[test]
fn slots_follow_the_order() {
    let itanium = OverloadOrder::IntThenFloat;
    let msvc = OverloadOrder::FloatThenInt;
    assert_eq!((itanium.get_stat_slot(true), itanium.get_stat_slot(false)), (0, 1));
    assert_eq!((msvc.get_stat_slot(true), msvc.get_stat_slot(false)), (1, 0));
    assert_eq!((itanium.set_stat_slot(true), itanium.set_stat_slot(false)), (2, 3));
    assert_eq!((msvc.set_stat_slot(true), msvc.set_stat_slot(false)), (3, 2));
    assert_eq!((itanium.int_offset(), itanium.float_offset()), (0, 1));
    assert_eq!(set_achievement_slot(true), 6);
    assert_eq!(set_achievement_slot(false), 7);
    let kept = UserStats::reuse(msvc, OrderConfidence::Confirmed);
    assert_eq!(kept.order(), msvc);
}
