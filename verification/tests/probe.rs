use sam::callbacks::CallbackEvent;
use sam::probe::{
    another_app, is_account, pick_app, pick_candidate, stats_result, truncate, ACCOUNTS_END,
    FIRST_ACCOUNT,
};
use sam::schema::{AchievementDefinition, GameSchema, StatBounds, StatDefinition};

fn schema(app_id: u32, achievements: usize, stats: usize) -> GameSchema {
    let mut s = GameSchema::default();
    s.app_id = app_id;
    for i in 0..achievements {
        s.achievements.push(AchievementDefinition {
            id: format!("a{i}"),
            name: String::new(),
            description: String::new(),
            icon_normal: String::new(),
            icon_locked: String::new(),
            hidden: false,
            permission: 0,
        });
    }
    for i in 0..stats {
        s.stats.push(StatDefinition {
            id: format!("s{i}"),
            display_name: String::new(),
            bounds: StatBounds::Integer { min: 0, max: 1, max_change: 0, default: 0 },
            increment_only: false,
            permission: 0,
        });
    }
    s
}

#[test]
fn an_app_with_a_numeric_stat_is_preferred() {
    let schemas = vec![schema(1, 0, 5), schema(2, 3, 0), schema(3, 1, 0), schema(4, 1, 1)];
    assert_eq!(pick_candidate(&schemas), Some(4));
    let schemas = vec![schema(1, 0, 5), schema(2, 3, 0), schema(3, 1, 0)];
    assert_eq!(pick_candidate(&schemas), Some(2));
    let schemas = vec![schema(7, 1, 1), schema(8, 1, 1)];
    assert_eq!(pick_candidate(&schemas), Some(7));
    assert_eq!(pick_candidate(&vec![schema(1, 0, 5)]), None);
    assert_eq!(pick_candidate(&Vec::new()), None);
}

#[test]
fn a_given_app_is_taken_as_it_is() {
    let schemas = vec![schema(4, 1, 1)];
    assert_eq!(pick_app(&Some("620".into()), &schemas), Some(620));
    assert_eq!(pick_app(&Some("620".into()), &Vec::new()), Some(620));
    assert_eq!(pick_app(&Some("portal".into()), &schemas), Some(4));
    assert_eq!(pick_app(&Some("4294967296".into()), &schemas), Some(4));
    assert_eq!(pick_app(&None, &schemas), Some(4));
    assert_eq!(pick_app(&None, &Vec::new()), None);
}

#[test]
fn account_ids_are_in_their_range() {
    assert!(is_account(76_561_197_960_265_728));
    assert!(is_account(76_561_198_012_345_678));
    assert!(is_account(76_561_202_255_233_023));
    assert!(!is_account(76_561_202_255_233_024));
    assert!(!is_account(76_561_197_960_265_727));
    assert!(!is_account(0));
    assert_eq!(FIRST_ACCOUNT >> 32, 0x0110_0001);
    assert_eq!((ACCOUNTS_END - 1) >> 32, 0x0110_0001);
}

#[test]
fn the_first_answer_on_stats_counts() {
    let received = |result| CallbackEvent::UserStatsReceived { game_id: 1, result, steam_id: 2 };
    let stored = CallbackEvent::UserStatsStored { game_id: 1, result: 9 };
    assert_eq!(stats_result(&vec![stored, received(1), received(2)]), Some(1));
    assert_eq!(stats_result(&vec![stored, CallbackEvent::Other { id: 5 }]), None);
    assert_eq!(stats_result(&Vec::new()), None);
}

#[test]
fn another_owned_app_is_found() {
    let apps = vec![(10, true), (20, false), (30, true), (40, true)];
    assert_eq!(another_app(&apps, 10), Some(30));
    assert_eq!(another_app(&apps, 30), Some(10));
    assert_eq!(another_app(&vec![(10, true), (20, false)], 10), None);
}

#[test]
fn long_names_end_in_an_ellipsis() {
    assert_eq!(truncate("abcd", 4), "abcd");
    assert_eq!(truncate("abcde", 4), "abc\u{2026}");
    assert_eq!(truncate("\u{e9}\u{e9}\u{e9}", 2), "\u{e9}\u{2026}");
    assert_eq!(truncate("ab", 1), "\u{2026}");
    assert_eq!(truncate("ab", 0), "\u{2026}");
    assert_eq!(truncate("", 0), "");
}
