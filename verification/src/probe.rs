//! What checking an installation of Steam comes down to: which app to check it
//! with, and what its answers mean.

use vstd::prelude::*;

use crate::callbacks::CallbackEvent;
use crate::schema::{GameSchema, SchemaModel};
use crate::text;

verus! {

/// The lowest Steam ID of an individual account.
pub const FIRST_ACCOUNT: u64 = 76_561_197_960_265_728;

/// The lowest number above the Steam IDs of individual accounts.
pub const ACCOUNTS_END: u64 = 76_561_202_255_233_024;

/// What a list of schemas says.
pub open spec fn schema_models(list: Seq<GameSchema>) -> Seq<SchemaModel> {
    list.map_values(|s: GameSchema| s@)
}

/// The app of the first schema that has achievements, and statistics too where
/// those are called for.
pub open spec fn first_app(list: Seq<SchemaModel>, with_stats: bool) -> Option<u32>
    decreases list.len(),
{
    if list.len() == 0 {
        None
    } else if list[0].achievements.len() > 0 && (with_stats ==> list[0].stats.len() > 0) {
        Some(list[0].app_id)
    } else {
        first_app(list.skip(1), with_stats)
    }
}

/// The app to check with: the first that has achievements and a statistic, else
/// the first that has achievements.
pub open spec fn candidate(list: Seq<SchemaModel>) -> Option<u32> {
    match first_app(list, true) {
        Some(id) => Some(id),
        None => first_app(list, false),
    }
}

/// First cached schema that declares a numeric stat, which is what the overload
/// probe needs. Uses only files on disk, so it can run before Steam is loaded.
pub fn pick_candidate(schemas: &Vec<GameSchema>) -> (r: Option<u32>)
    ensures
        r == candidate(schema_models(schemas@)),
{
    let ghost list = schema_models(schemas@);
    let mut fallback: Option<u32> = None;
    assert(list.skip(0) == list);
    for i in 0..schemas.len()
        invariant
            list == schema_models(schemas@),
            first_app(list, true) == first_app(list.skip(i as int), true),
            match fallback {
                Some(id) => first_app(list, false) == Some(id),
                None => first_app(list, false) == first_app(list.skip(i as int), false),
            },
    {
        let schema = &schemas[i];
        assert(list.skip(i as int)[0] == schema@);
        assert(list.skip(i as int).skip(1) == list.skip(i + 1));
        if schema.achievements.len() > 0 {
            if schema.stats.len() > 0 {
                return Some(schema.app_id);
            }
            if fallback.is_none() {
                fallback = Some(schema.app_id);
            }
        }
    }
    fallback
}

/// The app to check with: the one whose number was given, else the candidate
/// among the cached schemas.
pub fn pick_app(given: &Option<String>, schemas: &Vec<GameSchema>) -> (r: Option<u32>)
    ensures
        match text::optional(*given) {
            Some(s) if text::read_u32(s) is Some => r == Some(text::read_u32(s)->0 as u32),
            _ => r == candidate(schema_models(schemas@)),
        },
{
    if let Some(s) = given {
        if let Some(id) = text::parse_u32(s.as_str()) {
            return Some(id);
        }
    }
    pick_candidate(schemas)
}

/// There is an app to check with exactly where some schema has achievements, and
/// it is the app of such a schema.
pub proof fn any_achievement_makes_a_candidate(list: Seq<SchemaModel>)
    ensures
        candidate(list) is Some <==> exists|i: int|
            0 <= i < list.len() && (#[trigger] list[i]).achievements.len() > 0,
        candidate(list) matches Some(id) ==> exists|i: int|
            0 <= i < list.len() && (#[trigger] list[i]).achievements.len() > 0 && list[i].app_id
                == id,
{
    first_app_is_listed(list, true);
    first_app_is_listed(list, false);
}

proof fn first_app_is_listed(list: Seq<SchemaModel>, with_stats: bool)
    ensures
        match first_app(list, with_stats) {
            Some(id) => exists|i: int|
                0 <= i < list.len() && (#[trigger] list[i]).achievements.len() > 0
                    && list[i].app_id == id,
            None => with_stats || forall|i: int|
                0 <= i < list.len() ==> (#[trigger] list[i]).achievements.len() == 0,
        },
    decreases list.len(),
{
    if list.len() > 0 {
        let rest = list.skip(1);
        first_app_is_listed(rest, with_stats);
        assert forall|i: int| 0 < i < list.len() implies list[i] == #[trigger] rest[i - 1] by {}
        if list[0].achievements.len() > 0 && (with_stats ==> list[0].stats.len() > 0) {
        } else {
            match first_app(rest, with_stats) {
                Some(id) => {
                    let i = choose|i: int|
                        0 <= i < rest.len() && (#[trigger] rest[i]).achievements.len() > 0
                            && rest[i].app_id == id;
                    assert(list[i + 1] == rest[i]);
                },
                None => {
                    if !with_stats {
                        assert forall|i: int| 0 <= i < list.len() implies (
                        #[trigger] list[i]).achievements.len() == 0 by {
                            if i > 0 {
                                assert(rest[i - 1] == list[i]);
                            }
                        }
                    }
                },
            }
        }
    }
}

/// Whether a Steam ID may be that of an individual account. Another would mean
/// that the client does not hand IDs out as expected.
pub fn is_account(steam_id: u64) -> (r: bool)
    ensures
        r == (FIRST_ACCOUNT <= steam_id < ACCOUNTS_END),
{
    FIRST_ACCOUNT <= steam_id && steam_id < ACCOUNTS_END
}

/// The Steam IDs of individual accounts are those with one and the same upper
/// half: that of the public universe, the individual account and the desktop.
pub proof fn accounts_share_an_upper_half(steam_id: u64)
    ensures
        FIRST_ACCOUNT <= steam_id < ACCOUNTS_END <==> steam_id >> 32 == 0x0110_0001,
{
    assert((76_561_197_960_265_728u64 <= steam_id && steam_id < 76_561_202_255_233_024u64) == (
    steam_id >> 32 == 0x0110_0001)) by (bit_vector);
}

/// What the first of some events that is about received stats says they came to.
pub open spec fn received(events: Seq<CallbackEvent>) -> Option<i32>
    decreases events.len(),
{
    if events.len() == 0 {
        None
    } else {
        match events[0] {
            CallbackEvent::UserStatsReceived { result, .. } => Some(result),
            _ => received(events.skip(1)),
        }
    }
}

/// What requested stats came to, if some events say so.
pub fn stats_result(events: &Vec<CallbackEvent>) -> (r: Option<i32>)
    ensures
        r == received(events@),
{
    assert(events@.skip(0) == events@);
    for i in 0..events.len()
        invariant
            received(events@) == received(events@.skip(i as int)),
    {
        assert(events@.skip(i as int).skip(1) == events@.skip(i + 1));
        if let CallbackEvent::UserStatsReceived { result, .. } = &events[i] {
            return Some(*result);
        }
    }
    None
}

/// The first owned app of a list of apps other than `app_id`.
pub open spec fn other_owned(apps: Seq<(u32, bool)>, app_id: u32) -> Option<u32>
    decreases apps.len(),
{
    if apps.len() == 0 {
        None
    } else if apps[0].0 != app_id && apps[0].1 {
        Some(apps[0].0)
    } else {
        other_owned(apps.skip(1), app_id)
    }
}

/// Another app to connect as, given which of the cached ones are owned.
pub fn another_app(apps: &Vec<(u32, bool)>, app_id: u32) -> (r: Option<u32>)
    ensures
        r == other_owned(apps@, app_id),
{
    assert(apps@.skip(0) == apps@);
    for i in 0..apps.len()
        invariant
            other_owned(apps@, app_id) == other_owned(apps@.skip(i as int), app_id),
    {
        assert(apps@.skip(i as int).skip(1) == apps@.skip(i + 1));
        let (id, owned) = apps[i];
        if id != app_id && owned {
            return Some(id);
        }
    }
    None
}

/// A text of at most `max` characters: one that is longer ends in an ellipsis.
pub open spec fn shortened(s: Seq<char>, max: nat) -> Seq<char> {
    if s.len() <= max {
        s
    } else if max == 0 {
        seq!['\u{2026}']
    } else {
        s.take(max - 1).push('\u{2026}')
    }
}

/// Cuts a text that is longer than `max` characters. Of one that may have none,
/// the ellipsis is left.
pub fn truncate(s: &str, max: usize) -> (r: String)
    ensures
        r@ == shortened(s@, max as nat),
        max > 0 ==> r@.len() <= max,
{
    let chars = text::chars_of(s);
    if chars.len() <= max {
        return text::string_of(&chars);
    }
    let kept: usize = if max > 0 {
        max - 1
    } else {
        0
    };
    let mut r = text::slice_text(&chars, 0, kept);
    r.push('\u{2026}');
    assert(r@ =~= shortened(s@, max as nat));
    r
}

proof fn first_app_behind(before: Seq<SchemaModel>, rest: Seq<SchemaModel>, with_stats: bool)
    requires
        forall|i: int|
            0 <= i < before.len() ==> (#[trigger] before[i]).achievements.len() == 0 || (with_stats
                && before[i].stats.len() == 0),
    ensures
        first_app(before + rest, with_stats) == first_app(rest, with_stats),
    decreases before.len(),
{
    let list = before + rest;
    if before.len() == 0 {
        assert(list =~= rest);
    } else {
        assert(list[0] == before[0]);
        assert(list.skip(1) =~= before.skip(1) + rest);
        assert forall|i: int| 0 <= i < before.skip(1).len() implies (
        #[trigger] before.skip(1)[i]).achievements.len() == 0 || (with_stats
            && before.skip(1)[i].stats.len() == 0) by {
            assert(before.skip(1)[i] == before[i + 1]);
        }
        first_app_behind(before.skip(1), rest, with_stats);
    }
}

/// The first app that has both achievements and statistics is the one to check with; where
/// none has both, the first that has achievements is.
pub proof fn the_first_full_schema_is_taken(
    before: Seq<SchemaModel>,
    schema: SchemaModel,
    after: Seq<SchemaModel>,
)
    requires
        schema.achievements.len() > 0,
    ensures
        ({
            let list = before + seq![schema] + after;
            &&& schema.stats.len() > 0 && (forall|i: int|
                0 <= i < before.len() ==> (#[trigger] before[i]).achievements.len() == 0
                    || before[i].stats.len() == 0) ==> candidate(list) == Some(schema.app_id)
            &&& (forall|i: int|
                0 <= i < list.len() ==> (#[trigger] list[i]).achievements.len() == 0
                    || list[i].stats.len() == 0) && (forall|i: int|
                0 <= i < before.len() ==> (#[trigger] before[i]).achievements.len() == 0)
                ==> candidate(list) == Some(schema.app_id)
        }),
{
    let rest = seq![schema] + after;
    let list = before + seq![schema] + after;
    assert(list =~= before + rest);
    assert(rest[0] == schema);
    if schema.stats.len() > 0 && (forall|i: int|
        0 <= i < before.len() ==> (#[trigger] before[i]).achievements.len() == 0
            || before[i].stats.len() == 0) {
        first_app_behind(before, rest, true);
    }
    if (forall|i: int|
        0 <= i < list.len() ==> (#[trigger] list[i]).achievements.len() == 0 || list[i].stats.len()
            == 0) && (forall|i: int|
        0 <= i < before.len() ==> (#[trigger] before[i]).achievements.len() == 0) {
        first_app_behind(list, Seq::empty(), true);
        assert(list + Seq::<SchemaModel>::empty() =~= list);
        first_app_behind(before, rest, false);
    }
}

/// What stats came to is what the first event about them says, whatever other events there
/// are.
pub proof fn the_first_answer_counts(
    before: Seq<CallbackEvent>,
    event: CallbackEvent,
    after: Seq<CallbackEvent>,
)
    requires
        forall|i: int| 0 <= i < before.len() ==> !((#[trigger] before[i]) is UserStatsReceived),
    ensures
        event matches CallbackEvent::UserStatsReceived { result, .. } ==> received(
            before + seq![event] + after,
        ) == Some(result),
        received(before) is None,
    decreases before.len(),
{
    let list = before + seq![event] + after;
    if before.len() == 0 {
        assert(list[0] == event);
    } else {
        assert(list[0] == before[0]);
        assert(list.skip(1) =~= before.skip(1) + seq![event] + after);
        assert forall|i: int| 0 <= i < before.skip(1).len() implies !((
        #[trigger] before.skip(1)[i]) is UserStatsReceived) by {
            assert(before.skip(1)[i] == before[i + 1]);
        }
        the_first_answer_counts(before.skip(1), event, after);
    }
}

/// The other app is the first that is owned and not the one already checked with; where
/// there is none, there is none.
pub proof fn the_first_other_owned_app_is_taken(
    before: Seq<(u32, bool)>,
    app: (u32, bool),
    after: Seq<(u32, bool)>,
    app_id: u32,
)
    requires
        forall|i: int| 0 <= i < before.len() ==> (#[trigger] before[i]).0 == app_id || !before[i].1,
    ensures
        app.0 != app_id && app.1 ==> other_owned(before + seq![app] + after, app_id) == Some(app.0),
        other_owned(before, app_id) is None,
    decreases before.len(),
{
    let list = before + seq![app] + after;
    if before.len() == 0 {
        assert(list[0] == app);
    } else {
        assert(list[0] == before[0]);
        assert(list.skip(1) =~= before.skip(1) + seq![app] + after);
        assert forall|i: int| 0 <= i < before.skip(1).len() implies (
        #[trigger] before.skip(1)[i]).0 == app_id || !before.skip(1)[i].1 by {
            assert(before.skip(1)[i] == before[i + 1]);
        }
        the_first_other_owned_app_is_taken(before.skip(1), app, after, app_id);
    }
}

/// A text that fits is left as it is; of a longer one as much is kept as leaves room for
/// the ellipsis.
pub proof fn long_texts_are_cut(front: Seq<char>, back: Seq<char>, max: nat)
    ensures
        front.len() <= max ==> shortened(front, max) == front,
        front.len() + 1 == max && back.len() > 1 ==> shortened(front + back, max) == front
            + seq!['\u{2026}'],
{
    if front.len() + 1 == max && back.len() > 1 {
        assert((front + back).take(max - 1) =~= front);
        assert(shortened(front + back, max) =~= front + seq!['\u{2026}']);
    }
}

/// Of a text that may have no characters at all the ellipsis alone is left.
pub proof fn no_room_leaves_the_ellipsis(s: Seq<char>)
    requires
        s.len() > 0,
    ensures
        shortened(s, 0) == seq!['\u{2026}'],
{
}

} // verus!
