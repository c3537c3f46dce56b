use sam::callbacks::CallbackEvent;
use sam::editor::{
    translate_result, CommitStep, DialogInput, EditorApp, EventAction, Filter, ResetStage, Tab,
    Write,
};
use sam::float::{FloatNumbers, FloatValue};
use sam::lines::{download_text, reset_label, Remark};
use sam::rows::StatValue;
use sam::schema::{AchievementDefinition, GameSchema, StatBounds, StatDefinition};
use sam::user_stats::{OrderConfidence, OrderResolution, OverloadOrder};

fn achievement(id: &str, name: &str, permission: i32) -> AchievementDefinition {
    AchievementDefinition {
        id: id.into(),
        name: name.into(),
        description: format!("About {id}"),
        icon_normal: format!("{id}.jpg"),
        icon_locked: String::new(),
        hidden: false,
        permission,
    }
}

fn integer(id: &str, permission: i32, increment_only: bool) -> StatDefinition {
    StatDefinition {
        id: id.into(),
        display_name: format!("Stat {id}"),
        bounds: StatBounds::Integer {
            min: i32::MIN,
            max: i32::MAX,
            max_change: 0,
            default: 0,
        },
        increment_only,
        permission,
    }
}

fn float(id: &str, increment_only: bool) -> StatDefinition {
    StatDefinition {
        id: id.into(),
        display_name: format!("Stat {id}"),
        bounds: StatBounds::Float {
            min: FloatValue::Bits((-10.0f32).to_bits()),
            max: FloatValue::Text {
                text: "99.5".into(),
                fallback: f32::MAX.to_bits(),
            },
            max_change: FloatValue::Bits(0),
            default: FloatValue::Bits(0),
        },
        increment_only,
        permission: 0,
    }
}

fn schema() -> GameSchema {
    GameSchema {
        app_id: 620,
        achievements: vec![
            achievement("A", "First", 0),
            achievement("B", "#token", 0),
            achievement("C", "Guarded", 1),
            achievement("D", "Unknown", 0),
        ],
        stats: vec![integer("i", 0, false), integer("g", 0, true), float("f", true), integer("p", 2, false)],
    }
}

fn shown(value: f32) -> StatValue {
    StatValue::Float {
        original: value.to_bits(),
        shown: value.to_string(),
    }
}

fn resolution(confidence: OrderConfidence) -> OrderResolution {
    OrderResolution {
        order: OverloadOrder::IntThenFloat,
        confidence,
        probe_stat: None,
    }
}

fn loaded() -> EditorApp {
    let mut app = EditorApp::new(
        620,
        schema(),
        OverloadOrder::IntThenFloat,
        OrderConfidence::Assumed("not yet probed"),
    );
    app.load_rows(
        resolution(OrderConfidence::Confirmed),
        &vec![Some((true, 1_000_000_000)), Some((false, 0)), Some((true, 5)), None],
        &vec![
            Some(StatValue::Integer { original: 3 }),
            Some(StatValue::Integer { original: 10 }),
            Some(shown(1.5)),
            Some(StatValue::Integer { original: 7 }),
        ],
    );
    app
}

/// The real numbers that typed texts denote.
fn numbers(app: &EditorApp) -> FloatNumbers {
    let mut numbers = FloatNumbers::new();
    for text in app.float_texts() {
        if let Ok(v) = text.parse::<f32>() {
            numbers.insert(text, v.to_bits());
        }
    }
    numbers
}

/// Stores the changes against a Steam that answers by `accepts`.
fn store(app: &mut EditorApp, accepts: impl Fn(&str) -> bool) -> Vec<String> {
    let numbers = numbers(app);
    let mut done = Vec::new();
    let Some(plan) = app.plan_commit(&numbers) else {
        return done;
    };
    let mut replies = Vec::new();
    loop {
        match app.commit(&plan, &replies) {
            CommitStep::Write { index } => {
                let step = match &plan[index] {
                    Write::Achievement { id, unlocked, .. } => format!("{id}={unlocked}"),
                    Write::Integer { id, value, .. } => format!("{id}={value}"),
                    Write::Float { id, bits, .. } => format!("{id}={}", f32::from_bits(*bits)),
                };
                replies.push(accepts(&step));
                done.push(step);
            }
            CommitStep::Store => {
                replies.push(accepts("store"));
                done.push("store".to_string());
            }
            CommitStep::Reload => {
                done.push("reload".to_string());
                return done;
            }
            CommitStep::Done => return done,
        }
    }
}

#[test]
fn a_new_editor_is_waiting() {
    let mut app = EditorApp::new(
        620,
        schema(),
        OverloadOrder::IntThenFloat,
        OrderConfidence::Confirmed,
    );
    assert!(app.loading);
    assert!(!app.allow_stat_edits);
    assert_eq!(app.tab, Tab::Achievements);
    assert_eq!(app.status, "Retrieving stat information...");
    assert_eq!(
        app.waiting_message(),
        Some("Waiting for Steam to send this game's stats...")
    );
    assert!(app.needs_repaint(false, 0));
    app.reload_answered(5);
    assert!(app.loading);
    app.reload_answered(0);
    assert!(!app.loading);
    assert_eq!(
        app.error.as_deref(),
        Some("Steam refused the stats request. Make sure the client is signed in.")
    );
}

#[test]
fn rows_are_those_that_steam_knows() {
    let app = loaded();
    assert_eq!(app.status, "Retrieved 3 achievements and 4 statistics.");
    assert_eq!(app.achievements.len(), 3);
    assert_eq!(app.achievements[0].name, "First");
    assert_eq!(app.achievements[1].name, "B");
    assert_eq!(app.achievements[0].icon_locked, "A.jpg");
    assert_eq!(app.stats[2].text, "1.5");
    assert!(app.notice.is_none());
    assert!(app.loaded_once);
    assert_eq!(app.waiting_message(), None);
    assert_eq!(app.pending_changes(), 0);
}

#[test]
fn an_unproved_order_is_pointed_out() {
    let mut app = loaded();
    app.load_rows(
        resolution(OrderConfidence::Assumed("why")),
        &vec![],
        &vec![Some(StatValue::Integer { original: 1 }), Some(shown(1.0))],
    );
    // A value of another type than the schema says is none.
    assert_eq!(app.stats.len(), 1);
    assert_eq!(
        app.notice.as_deref(),
        Some(
            "Stat type ordering could not be verified (why). Achievements are unaffected; take care when editing statistics."
        )
    );
    app.notice = None;
    app.load_rows(resolution(OrderConfidence::Assumed("why")), &vec![], &vec![]);
    assert_eq!(app.notice, None);
}

#[test]
fn callbacks_for_other_apps_are_ignored() {
    let mut app = loaded();
    let received = |game_id: u64, result: i32| CallbackEvent::UserStatsReceived {
        game_id,
        result,
        steam_id: 1,
    };
    assert_eq!(app.on_event(received(620, 1)), EventAction::LoadRows);
    assert_eq!(app.on_event(received(0, 1)), EventAction::LoadRows);
    assert_eq!(app.on_event(received(0x7_0000_0000 + 620, 1)), EventAction::LoadRows);
    assert_eq!(app.on_event(received(7, 2)), EventAction::Nothing);
    assert_eq!(app.error, None);
    app.loading = true;
    assert_eq!(app.on_event(received(620, 2)), EventAction::Nothing);
    assert!(!app.loading);
    assert_eq!(
        app.error.as_deref(),
        Some("generic error — this usually means you do not own the game")
    );
    app.error = None;
    app.on_event(CallbackEvent::UserStatsStored { game_id: 620, result: 1 });
    assert_eq!(app.error, None);
    app.on_event(CallbackEvent::UserStatsStored { game_id: 620, result: 8 });
    assert_eq!(
        app.error.as_deref(),
        Some("Steam rejected the store (invalid parameter).")
    );
    assert_eq!(app.on_event(CallbackEvent::Other { id: 3 }), EventAction::Nothing);
    assert_eq!(translate_result(1), "ok");
    assert_eq!(translate_result(-7), "EResult -7");
}

#[test]
fn changes_are_written_in_order_and_then_stored() {
    let mut app = loaded();
    app.allow_stat_edits = true;
    app.set_checked(0, false);
    app.set_checked(1, true);
    app.edit_stat(0, " -4 ".into());
    app.edit_stat(1, "11".into());
    app.edit_stat(2, "2.25".into());
    assert_eq!(app.pending_changes(), 5);
    assert_eq!(app.store_button(), ("Store (5)".to_string(), true));
    let done = store(&mut app, |_| true);
    assert_eq!(done, vec!["A=false", "B=true", "i=-4", "g=11", "f=2.25", "store", "reload"]);
    assert!(app.loading);
    assert_eq!(app.store_button(), ("Store (5)".to_string(), false));
}

#[test]
fn a_refused_change_stops_everything() {
    let mut app = loaded();
    app.allow_stat_edits = true;
    app.set_checked(0, false);
    app.edit_stat(0, "4".into());
    let done = store(&mut app, |step| step != "A=false");
    assert_eq!(done, vec!["A=false"]);
    assert_eq!(app.error.as_deref(), Some("Failed to set 'First'. Nothing was stored."));
    let done = store(&mut app, |step| step != "i=4");
    assert_eq!(done, vec!["A=false", "i=4"]);
    assert_eq!(app.error.as_deref(), Some("Failed to set 'Stat i'. Nothing was stored."));
    let done = store(&mut app, |step| step != "store");
    assert_eq!(done, vec!["A=false", "i=4", "store"]);
    assert_eq!(
        app.error.as_deref(),
        Some("Steam rejected the store. Your changes were not saved.")
    );
    assert!(!app.loading);
}

#[test]
fn nothing_to_store_is_said() {
    let mut app = loaded();
    assert_eq!(store(&mut app, |_| true), Vec::<String>::new());
    assert_eq!(app.notice.as_deref(), Some("Nothing to store."));
    assert_eq!(app.store_button(), ("Store".to_string(), false));
}

#[test]
fn one_typo_keeps_everything_from_being_written() {
    let mut app = loaded();
    app.allow_stat_edits = true;
    app.set_checked(0, false);
    app.edit_stat(0, "four".into());
    app.edit_stat(1, "9".into());
    app.edit_stat(2, "x".into());
    app.stats[3].text = "8".into();
    assert_eq!(store(&mut app, |_| true), Vec::<String>::new());
    assert_eq!(
        app.error.as_deref(),
        Some("Some statistics could not be applied; see the highlighted rows.")
    );
    let problems: Vec<Option<&str>> = app.stats.iter().map(|s| s.problem.as_deref()).collect();
    assert_eq!(
        problems,
        vec![
            Some("not a whole number"),
            Some("increment only"),
            Some("not a number"),
            Some("protected")
        ]
    );
    app.edit_stat(0, "4".into());
    assert_eq!(app.stats[0].problem, None);
    app.edit_stat(2, "1.25".into());
    app.plan_commit(&numbers(&app));
    assert_eq!(app.stats[0].problem, None);
    assert_eq!(app.stats[2].problem.as_deref(), Some("increment only"));
}

#[test]
fn statistics_are_held_to_their_bounds() {
    let mut app = loaded();
    app.allow_stat_edits = true;
    app.stats[0].bounds = StatBounds::Integer {
        min: 0,
        max: 100,
        max_change: 0,
        default: 0,
    };
    for typed in ["200", "101", "-1"] {
        app.edit_stat(0, typed.into());
        assert_eq!(store(&mut app, |_| true), Vec::<String>::new());
        assert_eq!(app.stats[0].problem.as_deref(), Some("out of bounds"));
        assert!(app.error.is_some());
    }
    app.edit_stat(0, "100".into());
    // The upper bound of this one is given as text.
    app.edit_stat(2, "100".into());
    assert_eq!(app.float_texts(), vec!["100", "99.5"]);
    assert_eq!(store(&mut app, |_| true), Vec::<String>::new());
    assert_eq!(app.stats[0].problem, None);
    assert_eq!(app.stats[2].problem.as_deref(), Some("out of bounds"));
    app.stats[2].increment_only = false;
    app.edit_stat(2, "-10.5".into());
    assert_eq!(store(&mut app, |_| true), Vec::<String>::new());
    assert_eq!(app.stats[2].problem.as_deref(), Some("out of bounds"));
    app.edit_stat(2, "99.5".into());
    let done = store(&mut app, |_| true);
    assert_eq!(done, vec!["i=100", "f=99.5", "store", "reload"]);
}

#[test]
fn protected_entries_cannot_be_edited() {
    let mut app = loaded();
    app.allow_stat_edits = true;
    app.set_checked(2, false);
    assert!(app.achievements[2].current);
    app.edit_stat(3, "9".into());
    assert_eq!(app.stats[3].text, "7");
    app.allow_stat_edits = false;
    app.edit_stat(0, "9".into());
    assert_eq!(app.stats[0].text, "3");
    // Even a row that got edited some other way is not written.
    app.achievements[2].current = false;
    assert_eq!(store(&mut app, |_| true), Vec::<String>::new());
}

fn states(app: &EditorApp) -> Vec<bool> {
    app.achievements.iter().map(|a| a.current).collect()
}

#[test]
fn bulk_actions_leave_protected_rows_alone() {
    let mut app = loaded();
    app.lock_all();
    assert_eq!(states(&app), vec![false, false, true]);
    app.unlock_all();
    assert_eq!(states(&app), vec![true, true, true]);
    app.invert();
    assert_eq!(states(&app), vec![false, false, true]);
    app.invert();
    assert_eq!(states(&app), vec![true, true, true]);
    app.allow_stat_edits = true;
    app.edit_stat(0, "x".into());
    app.plan_commit(&numbers(&app));
    assert!(app.stats[0].problem.is_some());
    app.revert();
    assert_eq!(states(&app), vec![true, false, true]);
    assert_eq!(app.stats[0].text, "3");
    assert_eq!(app.stats[0].problem, None);
    assert_eq!(app.pending_changes(), 0);
}

#[test]
fn a_reset_is_confirmed_first() {
    let mut app = loaded();
    let input = |cancelled, confirmed, achievements_too| DialogInput {
        cancelled,
        confirmed,
        achievements_too,
    };
    assert_eq!(app.reset_dialog(input(false, true, true)), None);
    app.ask_reset();
    assert_eq!(app.reset, ResetStage::Confirming { achievements_too: false });
    assert_eq!(app.reset_dialog(input(false, false, true)), None);
    assert_eq!(app.reset, ResetStage::Confirming { achievements_too: true });
    assert_eq!(app.reset_dialog(input(true, true, true)), None);
    assert_eq!(app.reset, ResetStage::Idle);
    app.ask_reset();
    assert_eq!(app.reset_dialog(input(false, true, false)), Some(false));
    assert!(!app.perform_reset(false));
    assert_eq!(app.reset, ResetStage::Idle);
    assert_eq!(app.error.as_deref(), Some("Steam refused the reset."));
    assert!(app.perform_reset(true));
    assert!(app.loading);
    assert_eq!(app.error, None);
    assert_eq!(reset_label(true), "Reset stats and achievements");
    assert_eq!(reset_label(false), "Reset stats");
}

#[test]
fn achievements_are_filtered_and_searched() {
    let mut app = loaded();
    assert_eq!(app.visible_achievements(), vec![0, 1, 2]);
    app.filter = Filter::Locked;
    assert_eq!(app.visible_achievements(), vec![1]);
    app.filter = Filter::Unlocked;
    assert_eq!(app.visible_achievements(), vec![0, 2]);
    app.filter = Filter::All;
    app.search = "  GUARD ".into();
    assert_eq!(app.visible_achievements(), vec![2]);
    app.search = "about b".into();
    assert_eq!(app.visible_achievements(), vec![1]);
    app.achievements[0].name = "ÉTÉ".into();
    app.search = "été".into();
    assert_eq!(app.visible_achievements(), vec![0]);
    app.search = "nothing".into();
    assert_eq!(app.visible_achievements(), Vec::<usize>::new());
    assert_eq!(
        app.achievements_message(0),
        Some("No achievements match the current filter.")
    );
    assert_eq!(app.achievements_message(1), None);
    app.achievements.clear();
    assert_eq!(
        app.achievements_message(0),
        Some("This game reports no achievements.")
    );
    assert_eq!(app.statistics_message(), None);
    app.stats.clear();
    assert_eq!(app.statistics_message(), Some("This game reports no statistics."));
}

#[test]
fn lines_show_what_their_rows_say() {
    let mut app = loaded();
    let line = app.achievement_line(0);
    assert_eq!(
        line.icon_url.as_deref(),
        Some("https://cdn.steamstatic.com/steamcommunity/public/images/apps/620/A.jpg")
    );
    assert!(line.checked && line.enabled && !line.modified);
    assert_eq!(line.unlocked_at.as_deref(), Some("2001-09-09 01:46 UTC"));
    assert_eq!(line.description.as_deref(), Some("About A"));
    assert_eq!(line.explanation, None);
    assert_eq!(app.achievement_line(1).unlocked_at, None);
    let guarded = app.achievement_line(2);
    assert!(!guarded.enabled && guarded.protected);
    assert_eq!(
        guarded.explanation,
        Some("Protected by the game's server. Steam will not accept changes.")
    );
    app.show_icons = false;
    assert_eq!(app.achievement_line(0).icon_url, None);

    let line = app.stat_line(0);
    assert_eq!((line.name.as_str(), line.id.as_str(), line.kind), ("Stat i", "i", "integer"));
    assert!(!line.enabled);
    assert!(matches!(line.remark, Remark::Silent));
    app.allow_stat_edits = true;
    assert!(app.stat_line(0).enabled);
    assert!(!app.stat_line(3).enabled);
    assert_eq!(app.stat_line(2).kind, "float");
    assert!(app.stat_line(2).increment_only);
    app.edit_stat(2, "3".into());
    match app.stat_line(2).remark {
        Remark::Edited { words } => assert_eq!(words, "was 1.5"),
        _ => panic!("the row was edited"),
    }
    app.edit_stat(0, "x".into());
    app.plan_commit(&numbers(&app));
    match app.stat_line(0).remark {
        Remark::Problem { words } => assert_eq!(words, "not a whole number"),
        _ => panic!("the row has a problem"),
    }
}

#[test]
fn downloads_are_counted_in_words() {
    assert_eq!(download_text(0, "icons"), None);
    assert_eq!(download_text(12, "icons").as_deref(), Some("Downloading 12 icons..."));
    let mut app = loaded();
    assert!(!app.needs_repaint(false, 0));
    assert!(app.needs_repaint(true, 0));
    assert!(app.needs_repaint(false, 1));
    app.request_reload();
    assert!(app.needs_repaint(false, 0));
}
