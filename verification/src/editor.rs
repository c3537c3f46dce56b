//! The per-app achievement and statistic editor.
//!
//! This is the editor without its window: what it holds, what each of its
//! buttons does, and what is written to Steam in which order. Drawing it and
//! calling Steam are the caller's.

use vstd::prelude::*;

use crate::callbacks;
use crate::callbacks::CallbackEvent;
use crate::float::FloatNumbers;
use crate::rows;
use crate::rows::{
    AchievementRow, RowModel, StatRow, StatRowModel, StatValue, ValueModel, Verdict, VerdictModel,
};
use crate::schema::{AchievementModel, GameSchema, SchemaModel, StatModel};
use crate::text;
use crate::user_stats::{
    ConfidenceModel, OrderConfidence, OrderResolution, OverloadOrder, ResolutionModel,
};

verus! {

/// What the editor shows.
#[derive(Debug, Clone, Copy, PartialEq, Eq, Structural)]
pub enum Tab {
    Achievements,
    Statistics,
}

/// Which achievements are shown.
#[derive(Debug, Clone, Copy, PartialEq, Eq, Structural)]
pub enum Filter {
    All,
    Locked,
    Unlocked,
}

/// Where the destructive "reset everything" flow has got to.
#[derive(Debug, Clone, Copy, PartialEq, Eq, Structural)]
pub enum ResetStage {
    Idle,
    /// Asking whether to proceed, and whether achievements go too.
    Confirming { achievements_too: bool },
}

/// The editor for one app.
pub struct EditorApp {
    pub app_id: u32,
    pub schema: GameSchema,
    pub order: OverloadOrder,
    pub confidence: OrderConfidence,
    pub achievements: Vec<AchievementRow>,
    pub stats: Vec<StatRow>,
    pub tab: Tab,
    pub filter: Filter,
    pub search: String,
    pub allow_stat_edits: bool,
    pub show_icons: bool,
    pub loading: bool,
    pub loaded_once: bool,
    pub status: String,
    pub error: Option<String>,
    pub notice: Option<String>,
    pub reset: ResetStage,
}

/// What an [`EditorApp`] says.
pub struct EditorModel {
    pub app_id: u32,
    pub schema: SchemaModel,
    pub order: OverloadOrder,
    pub confidence: ConfidenceModel,
    pub achievements: Seq<RowModel>,
    pub stats: Seq<StatRowModel>,
    pub tab: Tab,
    pub filter: Filter,
    pub search: Seq<char>,
    pub allow_stat_edits: bool,
    pub show_icons: bool,
    pub loading: bool,
    pub loaded_once: bool,
    pub status: Seq<char>,
    pub error: Option<Seq<char>>,
    pub notice: Option<Seq<char>>,
    pub reset: ResetStage,
}

/// What a list of achievement rows says.
pub open spec fn row_models(list: Seq<AchievementRow>) -> Seq<RowModel> {
    list.map_values(|row: AchievementRow| row@)
}

/// What a list of statistic rows says.
pub open spec fn stat_row_models(list: Seq<StatRow>) -> Seq<StatRowModel> {
    list.map_values(|row: StatRow| row@)
}

impl View for EditorApp {
    type V = EditorModel;

    open spec fn view(&self) -> EditorModel {
        EditorModel {
            app_id: self.app_id,
            schema: self.schema@,
            order: self.order,
            confidence: self.confidence@,
            achievements: row_models(self.achievements@),
            stats: stat_row_models(self.stats@),
            tab: self.tab,
            filter: self.filter,
            search: self.search@,
            allow_stat_edits: self.allow_stat_edits,
            show_icons: self.show_icons,
            loading: self.loading,
            loaded_once: self.loaded_once,
            status: self.status@,
            error: text::optional(self.error),
            notice: text::optional(self.notice),
            reset: self.reset,
        }
    }
}

/// The editor once stats were asked for anew.
pub open spec fn reloading(editor: EditorModel) -> EditorModel {
    EditorModel {
        loading: true,
        error: None,
        notice: None,
        status: "Retrieving stat information..."@,
        ..editor
    }
}

/// What the result of an operation is called.
pub open spec fn result_words(result: i32) -> Seq<char> {
    if result == 1 {
        "ok"@
    } else if result == 2 {
        "generic error — this usually means you do not own the game"@
    } else if result == 8 {
        "invalid parameter"@
    } else {
        "EResult "@ + text::signed_decimal(result as int)
    }
}

/// What the result of an operation is called.
pub fn translate_result(result: i32) -> (r: String)
    ensures
        r@ == result_words(result),
{
    match result {
        1 => "ok".to_owned(),
        2 => "generic error — this usually means you do not own the game".to_owned(),
        8 => "invalid parameter".to_owned(),
        // Steam has many EResult values; the number is still actionable.
        other => {
            let mut s = "EResult ".to_owned();
            text::push_signed(&mut s, other as i64);
            s
        },
    }
}

/// The rows of the achievements that Steam knows: `replies` says of each
/// definition, in order, whether it is unlocked and since when. A reply that is
/// missing is one that Steam did not give.
pub open spec fn loaded_achievements(
    defs: Seq<AchievementModel>,
    replies: Seq<Option<(bool, u32)>>,
) -> Seq<RowModel>
    decreases defs.len(),
{
    if defs.len() == 0 {
        Seq::empty()
    } else {
        let before = loaded_achievements(defs.drop_last(), replies);
        let k = defs.len() - 1;
        if k < replies.len() {
            match replies[k] {
                Some((unlocked, time)) => before.push(rows::row_of(defs.last(), unlocked, time)),
                None => before,
            }
        } else {
            before
        }
    }
}

/// What optional values say.
pub open spec fn value_views(values: Seq<Option<StatValue>>) -> Seq<Option<ValueModel>> {
    values.map_values(
        |v: Option<StatValue>|
            match v {
                Some(value) => Some(value@),
                None => None::<ValueModel>,
            },
    )
}

/// The rows of the statistics that Steam knows: `replies` gives the value of
/// each definition, in order.
pub open spec fn loaded_stats(defs: Seq<StatModel>, replies: Seq<Option<ValueModel>>) -> Seq<
    StatRowModel,
>
    decreases defs.len(),
{
    if defs.len() == 0 {
        Seq::empty()
    } else {
        let before = loaded_stats(defs.drop_last(), replies);
        let k = defs.len() - 1;
        if k < replies.len() {
            match replies[k] {
                Some(value) => match rows::stat_row_of(defs.last(), value) {
                    Some(row) => before.push(row),
                    None => before,
                },
                None => before,
            }
        } else {
            before
        }
    }
}

/// The editor once Steam has delivered the stats. An overload order that could
/// not be proved is pointed out where there are statistics: reads are fine,
/// writes less so.
pub open spec fn loaded(
    editor: EditorModel,
    resolution: ResolutionModel,
    achievements: Seq<Option<(bool, u32)>>,
    stats: Seq<Option<ValueModel>>,
) -> EditorModel {
    let achievement_rows = loaded_achievements(editor.schema.achievements, achievements);
    let stat_rows = loaded_stats(editor.schema.stats, stats);
    EditorModel {
        order: resolution.order,
        confidence: resolution.confidence,
        achievements: achievement_rows,
        stats: stat_rows,
        loading: false,
        loaded_once: true,
        status: "Retrieved "@ + text::decimal(achievement_rows.len()) + " achievements and "@
            + text::decimal(stat_rows.len()) + " statistics."@,
        notice: match resolution.confidence {
            ConfidenceModel::Assumed(reason) if stat_rows.len() > 0 => Some(
                "Stat type ordering could not be verified ("@ + reason
                    + "). Achievements are unaffected; take care when editing statistics."@,
            ),
            _ => editor.notice,
        },
        ..editor
    }
}

/// What to do about a callback.
#[derive(Debug, Clone, Copy, PartialEq, Eq, Structural)]
pub enum EventAction {
    /// Nothing more.
    Nothing,
    /// Read the stats that have arrived and hand them to
    /// [`EditorApp::load_rows`].
    LoadRows,
}

/// What follows from a callback: what the editor says then, and what to do.
/// Stats for another app are none of its business.
pub open spec fn after_event(editor: EditorModel, event: CallbackEvent) -> (
    EditorModel,
    EventAction,
) {
    match event {
        CallbackEvent::UserStatsReceived { game_id, result, .. } => if game_id != 0
            && game_id as nat % 0x1_0000_0000 != editor.app_id {
            (editor, EventAction::Nothing)
        } else if result == callbacks::RESULT_OK {
            (editor, EventAction::LoadRows)
        } else {
            (
                EditorModel { loading: false, error: Some(result_words(result)), ..editor },
                EventAction::Nothing,
            )
        },
        CallbackEvent::UserStatsStored { result, .. } => if result != callbacks::RESULT_OK {
            (
                EditorModel {
                    error: Some("Steam rejected the store ("@ + result_words(result) + ")."@),
                    ..editor
                },
                EventAction::Nothing,
            )
        } else {
            (editor, EventAction::Nothing)
        },
        _ => (editor, EventAction::Nothing),
    }
}

impl EditorApp {
    /// An editor that is waiting for its app's stats. The caller goes on to
    /// request them and hands the answer to [`EditorApp::reload_answered`].
    pub fn new(
        app_id: u32,
        schema: GameSchema,
        order: OverloadOrder,
        confidence: OrderConfidence,
    ) -> (r: EditorApp)
        ensures
            r@ == reloading(
                EditorModel {
                    app_id,
                    schema: schema@,
                    order,
                    confidence: confidence@,
                    achievements: Seq::empty(),
                    stats: Seq::empty(),
                    tab: Tab::Achievements,
                    filter: Filter::All,
                    search: Seq::empty(),
                    allow_stat_edits: false,
                    show_icons: true,
                    loading: false,
                    loaded_once: false,
                    status: Seq::empty(),
                    error: None,
                    notice: None,
                    reset: ResetStage::Idle,
                },
            ),
    {
        let mut app = EditorApp {
            app_id,
            schema,
            order,
            confidence,
            achievements: Vec::new(),
            stats: Vec::new(),
            tab: Tab::Achievements,
            filter: Filter::All,
            search: String::new(),
            allow_stat_edits: false,
            show_icons: true,
            loading: false,
            loaded_once: false,
            status: String::new(),
            error: None,
            notice: None,
            reset: ResetStage::Idle,
        };
        proof {
            assert(app@.achievements =~= Seq::<RowModel>::empty());
            assert(app@.stats =~= Seq::<StatRowModel>::empty());
        }
        app.request_reload();
        app
    }

    /// Asks for the stats anew.
    pub fn request_reload(&mut self)
        ensures
            final(self)@ == reloading(old(self)@),
    {
        self.loading = true;
        self.error = None;
        self.notice = None;
        self.status = "Retrieving stat information...".to_owned();
    }

    /// Takes the handle that Steam gave for the request; 0 stands for a refusal.
    pub fn reload_answered(&mut self, handle: u64)
        ensures
            final(self)@ == if handle == 0 {
                EditorModel {
                    loading: false,
                    error: Some(
                        "Steam refused the stats request. Make sure the client is signed in."@,
                    ),
                    ..old(self)@
                }
            } else {
                old(self)@
            },
    {
        if handle == 0 {
            self.loading = false;
            self.error = Some(
                "Steam refused the stats request. Make sure the client is signed in.".to_owned(),
            );
        }
    }

    /// Populate rows once Steam reports the data has arrived.
    ///
    /// The overload order can only be proved once real stat values exist, so it
    /// is resolved anew on every load. `achievements` and `stats` are what Steam
    /// says of each achievement and each statistic of the schema, in order,
    /// where it knows them.
    pub fn load_rows(
        &mut self,
        resolution: OrderResolution,
        achievements: &Vec<Option<(bool, u32)>>,
        stats: &Vec<Option<StatValue>>,
    )
        ensures
            final(self)@ == loaded(
                old(self)@,
                resolution@,
                achievements@,
                value_views(stats@),
            ),
    {
        let ghost before = self@;
        let ghost defs = self.schema@.achievements;
        let mut achievement_rows: Vec<AchievementRow> = Vec::new();
        assert(row_models(achievement_rows@) =~= loaded_achievements(defs.take(0), achievements@));
        for i in 0..self.schema.achievements.len()
            invariant
                self@ == before,
                defs == self.schema@.achievements,
                row_models(achievement_rows@) == loaded_achievements(
                    defs.take(i as int),
                    achievements@,
                ),
        {
            let ghost was = row_models(achievement_rows@);
            let def = &self.schema.achievements[i];
            proof {
                assert(defs.take(i + 1).drop_last() == defs.take(i as int));
                assert(defs.take(i + 1).last() == def@);
            }
            if i < achievements.len() {
                if let Some((unlocked, time)) = achievements[i] {
                    let row = rows::achievement_row(def, unlocked, time);
                    achievement_rows.push(row);
                    assert(row_models(achievement_rows@) =~= was.push(row@));
                }
            }
        }
        assert(defs.take(defs.len() as int) == defs);
        let ghost stat_defs = self.schema@.stats;
        let ghost values = value_views(stats@);
        let mut stat_rows: Vec<StatRow> = Vec::new();
        assert(stat_row_models(stat_rows@) =~= loaded_stats(stat_defs.take(0), values));
        for i in 0..self.schema.stats.len()
            invariant
                self@ == before,
                stat_defs == self.schema@.stats,
                values == value_views(stats@),
                stat_row_models(stat_rows@) == loaded_stats(stat_defs.take(i as int), values),
        {
            let ghost was = stat_row_models(stat_rows@);
            let def = &self.schema.stats[i];
            proof {
                assert(stat_defs.take(i + 1).drop_last() == stat_defs.take(i as int));
                assert(stat_defs.take(i + 1).last() == def@);
            }
            if i < stats.len() {
                assert(values[i as int] == (match stats@[i as int] {
                    Some(value) => Some(value@),
                    None => None::<ValueModel>,
                }));
                if let Some(value) = &stats[i] {
                    if let Some(row) = rows::stat_row(def, value) {
                        stat_rows.push(row);
                        assert(stat_row_models(stat_rows@) =~= was.push(row@));
                    }
                }
            }
        }
        assert(stat_defs.take(stat_defs.len() as int) == stat_defs);
        let mut status = "Retrieved ".to_owned();
        text::push_decimal(&mut status, achievement_rows.len() as u64);
        status.append(" achievements and ");
        text::push_decimal(&mut status, stat_rows.len() as u64);
        status.append(" statistics.");
        self.order = resolution.order;
        self.confidence = resolution.confidence.clone();
        self.achievements = achievement_rows;
        self.stats = stat_rows;
        self.loading = false;
        self.loaded_once = true;
        self.status = status;
        if let OrderConfidence::Assumed(reason) = resolution.confidence {
            if self.stats.len() > 0 {
                let mut words = "Stat type ordering could not be verified (".to_owned();
                words.append(reason);
                words.append("). Achievements are unaffected; take care when editing statistics.");
                self.notice = Some(words);
            }
        }
    }

    /// Takes a callback, and says what to do about it.
    pub fn on_event(&mut self, event: CallbackEvent) -> (r: EventAction)
        ensures
            (final(self)@, r) == after_event(old(self)@, event),
    {
        match event {
            CallbackEvent::UserStatsReceived { game_id, result, .. } => {
                if game_id != 0 && game_id % 0x1_0000_0000 != self.app_id as u64 {
                    return EventAction::Nothing;
                }
                if result == callbacks::RESULT_OK {
                    return EventAction::LoadRows;
                }
                self.loading = false;
                self.error = Some(translate_result(result));
                EventAction::Nothing
            },
            CallbackEvent::UserStatsStored { result, .. } => {
                if result != callbacks::RESULT_OK {
                    let mut words = "Steam rejected the store (".to_owned();
                    words.append(translate_result(result).as_str());
                    words.append(").");
                    self.error = Some(words);
                }
                EventAction::Nothing
            },
            _ => EventAction::Nothing,
        }
    }
}

/// One change to hand to Steam. The label is what the user knows the entry by.
#[derive(Debug, PartialEq)]
#[allow(inconsistent_fields)]
pub enum Write {
    /// Lock or unlock an achievement.
    Achievement { id: String, unlocked: bool, label: String },
    /// Set a statistic to a whole number.
    Integer { id: String, value: i32, label: String },
    /// Set a statistic to a real number.
    Float { id: String, bits: u32, label: String },
}

/// What a [`Write`] says.
#[allow(inconsistent_fields)]
pub enum WriteModel {
    Achievement { id: Seq<char>, unlocked: bool, label: Seq<char> },
    Integer { id: Seq<char>, value: i32, label: Seq<char> },
    Float { id: Seq<char>, bits: u32, label: Seq<char> },
}

impl View for Write {
    type V = WriteModel;

    open spec fn view(&self) -> WriteModel {
        match *self {
            Write::Achievement { id, unlocked, label } => WriteModel::Achievement {
                id: id@,
                unlocked,
                label: label@,
            },
            Write::Integer { id, value, label } => WriteModel::Integer {
                id: id@,
                value,
                label: label@,
            },
            Write::Float { id, bits, label } => WriteModel::Float { id: id@, bits, label: label@ },
        }
    }
}

/// What a list of changes says.
pub open spec fn write_models(list: Seq<Write>) -> Seq<WriteModel> {
    list.map_values(|w: Write| w@)
}

/// The label of a change.
pub open spec fn label_of(write: WriteModel) -> Seq<char> {
    match write {
        WriteModel::Achievement { label, .. } => label,
        WriteModel::Integer { label, .. } => label,
        WriteModel::Float { label, .. } => label,
    }
}

/// The change that an achievement's row calls for, if any.
pub open spec fn achievement_write(row: RowModel) -> Option<WriteModel> {
    if row.modified() && !row.protected() {
        Some(WriteModel::Achievement { id: row.id, unlocked: row.current, label: row.name })
    } else {
        None
    }
}

/// The change that a statistic's row calls for, if any.
pub open spec fn stat_write(row: StatRowModel, numbers: Map<Seq<char>, u32>) -> Option<WriteModel> {
    match rows::verdict_on(row, numbers) {
        VerdictModel::Integer { value } => Some(
            WriteModel::Integer { id: row.id, value, label: row.display_name },
        ),
        VerdictModel::Float { bits } => Some(
            WriteModel::Float { id: row.id, bits, label: row.display_name },
        ),
        _ => None,
    }
}

/// The changes that the achievements call for, in order.
pub open spec fn achievement_writes(list: Seq<RowModel>) -> Seq<WriteModel>
    decreases list.len(),
{
    if list.len() == 0 {
        Seq::empty()
    } else {
        match achievement_write(list.last()) {
            Some(write) => achievement_writes(list.drop_last()).push(write),
            None => achievement_writes(list.drop_last()),
        }
    }
}

/// The changes that the statistics call for, in order.
pub open spec fn stat_writes(list: Seq<StatRowModel>, numbers: Map<Seq<char>, u32>) -> Seq<
    WriteModel,
>
    decreases list.len(),
{
    if list.len() == 0 {
        Seq::empty()
    } else {
        match stat_write(list.last(), numbers) {
            Some(write) => stat_writes(list.drop_last(), numbers).push(write),
            None => stat_writes(list.drop_last(), numbers),
        }
    }
}

/// A statistic's row with what is wrong with its text.
pub open spec fn marked(row: StatRowModel, numbers: Map<Seq<char>, u32>) -> StatRowModel {
    StatRowModel {
        problem: match rows::verdict_on(row, numbers) {
            VerdictModel::Problem { words } => Some(words),
            _ => None,
        },
        ..row
    }
}

/// Some statistic cannot be applied.
pub open spec fn any_problem(list: Seq<StatRowModel>, numbers: Map<Seq<char>, u32>) -> bool {
    exists|i: int|
        0 <= i < list.len() && rows::verdict_on(#[trigger] list[i], numbers) is Problem
}

/// What storing the changes comes to before anything is written: what the editor
/// says then, and what to write. Every edited stat is validated first, so a typo
/// in one field cannot leave the rest half-applied.
pub open spec fn planned(editor: EditorModel, numbers: Map<Seq<char>, u32>) -> (
    EditorModel,
    Option<Seq<WriteModel>>,
) {
    let checked = EditorModel {
        error: None,
        notice: None,
        stats: editor.stats.map_values(|row: StatRowModel| marked(row, numbers)),
        ..editor
    };
    if any_problem(editor.stats, numbers) {
        (
            EditorModel {
                error: Some(
                    "Some statistics could not be applied; see the highlighted rows."@,
                ),
                ..checked
            },
            None,
        )
    } else {
        (
            checked,
            Some(achievement_writes(editor.achievements) + stat_writes(editor.stats, numbers)),
        )
    }
}

/// What to do next when changes are stored.
#[derive(Debug, Clone, Copy, PartialEq, Eq, Structural)]
pub enum CommitStep {
    /// Hand this change of the plan to Steam.
    Write { index: usize },
    /// Have Steam store what was handed to it.
    Store,
    /// Request the stats anew.
    Reload,
    /// Nothing more.
    Done,
}

/// Where the first refusal stands among some replies.
pub open spec fn first_refusal(replies: Seq<bool>) -> Option<int>
    decreases replies.len(),
{
    if replies.len() == 0 {
        None
    } else {
        match first_refusal(replies.drop_last()) {
            Some(i) => Some(i),
            None => if replies.last() {
                None
            } else {
                Some(replies.len() - 1)
            },
        }
    }
}

/// What follows from Steam's replies to the changes of a plan, and to storing
/// them: what the editor says then, and what to do next.
pub open spec fn committed(editor: EditorModel, plan: Seq<WriteModel>, replies: Seq<bool>) -> (
    EditorModel,
    CommitStep,
) {
    let tried = if replies.len() < plan.len() {
        replies
    } else {
        replies.take(plan.len() as int)
    };
    match first_refusal(tried) {
        Some(i) => (
            EditorModel {
                error: Some(
                    "Failed to set '"@ + label_of(plan[i]) + "'. Nothing was stored."@,
                ),
                ..editor
            },
            CommitStep::Done,
        ),
        None => if replies.len() < plan.len() {
            (editor, CommitStep::Write { index: replies.len() as usize })
        } else if plan.len() == 0 {
            (
                EditorModel { notice: Some("Nothing to store."@), ..editor },
                CommitStep::Done,
            )
        } else if replies.len() == plan.len() {
            (editor, CommitStep::Store)
        } else if replies[plan.len() as int] {
            (reloading(editor), CommitStep::Reload)
        } else {
            (
                EditorModel {
                    error: Some("Steam rejected the store. Your changes were not saved."@),
                    ..editor
                },
                CommitStep::Done,
            )
        },
    }
}

impl Write {
    /// What the user knows the entry by.
    pub fn label(&self) -> (r: &str)
        ensures
            r@ == label_of(self@),
    {
        match self {
            Write::Achievement { label, .. } => label.as_str(),
            Write::Integer { label, .. } => label.as_str(),
            Write::Float { label, .. } => label.as_str(),
        }
    }
}

impl EditorApp {
    /// Decides what to write to Steam. None where some statistic cannot be
    /// applied; then nothing is written at all. `numbers` holds the real numbers
    /// that texts denote, see [`EditorApp::float_texts`].
    pub fn plan_commit(&mut self, numbers: &FloatNumbers) -> (r: Option<Vec<Write>>)
        ensures
            final(self)@ == planned(old(self)@, numbers@).0,
            match planned(old(self)@, numbers@).1 {
                Some(plan) => r matches Some(writes) && write_models(writes@) == plan,
                None => r is None,
            },
    {
        let ghost before = self@;
        let ghost nums = numbers@;
        self.error = None;
        self.notice = None;
        let mut found_problem = false;
        let mut later: Vec<Write> = Vec::new();
        let count = self.stats.len();
        assert(write_models(later@) =~= stat_writes(before.stats.take(0), nums));
        for i in 0..count
            invariant
                count == self.stats@.len(),
                count == before.stats.len(),
                nums == numbers@,
                self@ == (EditorModel {
                    error: None,
                    notice: None,
                    stats: self@.stats,
                    ..before
                }),
                forall|k: int|
                    0 <= k < i ==> #[trigger] self@.stats[k] == marked(before.stats[k], nums),
                forall|k: int| i <= k < count ==> #[trigger] self@.stats[k] == before.stats[k],
                found_problem <==> exists|k: int|
                    0 <= k < i && rows::verdict_on(#[trigger] before.stats[k], nums) is Problem,
                write_models(later@) == stat_writes(before.stats.take(i as int), nums),
        {
            let ghost was = self.stats@;
            let ghost written = write_models(later@);
            proof {
                assert(self@.stats[i as int] == self.stats@[i as int]@);
                assert(before.stats.take(i + 1).drop_last() == before.stats.take(i as int));
                assert(before.stats.take(i + 1).last() == before.stats[i as int]);
            }
            let verdict = self.stats[i].verdict(numbers);
            match verdict {
                Verdict::Unchanged => {
                    self.stats[i].problem = None;
                },
                Verdict::Problem { words } => {
                    self.stats[i].problem = Some(words.to_owned());
                    found_problem = true;
                },
                Verdict::Integer { value } => {
                    self.stats[i].problem = None;
                    let write = Write::Integer {
                        id: self.stats[i].id.clone(),
                        value,
                        label: self.stats[i].display_name.clone(),
                    };
                    later.push(write);
                    assert(write_models(later@) =~= written.push(write@));
                },
                Verdict::Float { bits } => {
                    self.stats[i].problem = None;
                    let write = Write::Float {
                        id: self.stats[i].id.clone(),
                        bits,
                        label: self.stats[i].display_name.clone(),
                    };
                    later.push(write);
                    assert(write_models(later@) =~= written.push(write@));
                },
            }
            proof {
                assert forall|k: int| 0 <= k < count implies #[trigger] self@.stats[k] == if k
                    == i {
                    marked(before.stats[k], nums)
                } else {
                    was[k]@
                } by {
                    assert(self@.stats[k] == self.stats@[k]@);
                }
                assert forall|k: int| 0 <= k < i implies #[trigger] self@.stats[k] == marked(
                    before.stats[k],
                    nums,
                ) by {
                    assert(stat_row_models(was)[k] == was[k]@);
                }
                assert forall|k: int| i + 1 <= k < count implies #[trigger] self@.stats[k]
                    == before.stats[k] by {
                    assert(stat_row_models(was)[k] == was[k]@);
                }
            }
        }
        proof {
            assert(self@.stats =~= before.stats.map_values(|row: StatRowModel| marked(row, nums)));
            assert(before.stats.take(count as int) == before.stats);
        }
        if found_problem {
            self.error = Some(
                "Some statistics could not be applied; see the highlighted rows.".to_owned(),
            );
            return None;
        }
        let mut writes: Vec<Write> = Vec::new();
        let ghost list = before.achievements;
        assert(write_models(writes@) =~= achievement_writes(list.take(0)));
        for i in 0..self.achievements.len()
            invariant
                list == row_models(self.achievements@),
                write_models(writes@) == achievement_writes(list.take(i as int)),
        {
            let ghost was = write_models(writes@);
            let row = &self.achievements[i];
            proof {
                assert(list.take(i + 1).drop_last() == list.take(i as int));
                assert(list.take(i + 1).last() == row@);
            }
            if row.is_modified() && !row.is_protected() {
                let write = Write::Achievement {
                    id: row.id.clone(),
                    unlocked: row.current,
                    label: row.name.clone(),
                };
                writes.push(write);
                assert(write_models(writes@) =~= was.push(write@));
            }
        }
        assert(list.take(list.len() as int) == list);
        let ghost first = write_models(writes@);
        let ghost second = write_models(later@);
        writes.append(&mut later);
        assert(write_models(writes@) =~= first + second);
        Some(writes)
    }

    /// Goes on with storing the changes of a plan, given Steam's replies so far:
    /// to each change in turn, and then to storing them.
    pub fn commit(&mut self, plan: &Vec<Write>, replies: &Vec<bool>) -> (r: CommitStep)
        ensures
            (final(self)@, r) == committed(old(self)@, write_models(plan@), replies@),
    {
        let ghost all = write_models(plan@);
        let count = if replies.len() < plan.len() {
            replies.len()
        } else {
            plan.len()
        };
        let ghost tried = replies@.take(count as int);
        assert(replies@.len() < plan@.len() ==> tried == replies@);
        let mut i: usize = 0;
        while i < count
            invariant
                i <= count,
                count <= plan@.len(),
                count <= replies@.len(),
                tried == replies@.take(count as int),
                first_refusal(tried.take(i as int)) is None,
                all == write_models(plan@),
                self@ == old(self)@,
                replies@.len() < plan@.len() ==> count == replies@.len() && tried == replies@,
                replies@.len() >= plan@.len() ==> count == plan@.len(),
            decreases count - i,
        {
            proof {
                assert(tried.take(i + 1).drop_last() == tried.take(i as int));
                assert(tried.take(i + 1).last() == replies@[i as int]);
            }
            if !replies[i] {
                proof {
                    first_refusal_stays(tried, i + 1);
                    assert(all[i as int] == plan@[i as int]@);
                }
                let mut words = "Failed to set '".to_owned();
                words.append(plan[i].label());
                words.append("'. Nothing was stored.");
                self.error = Some(words);
                return CommitStep::Done;
            }
            i = i + 1;
        }
        assert(tried.take(count as int) == tried);
        if count < plan.len() {
            return CommitStep::Write { index: count };
        }
        if plan.len() == 0 {
            self.notice = Some("Nothing to store.".to_owned());
            return CommitStep::Done;
        }
        if replies.len() == plan.len() {
            return CommitStep::Store;
        }
        if replies[plan.len()] {
            self.request_reload();
            CommitStep::Reload
        } else {
            self.error = Some(
                "Steam rejected the store. Your changes were not saved.".to_owned(),
            );
            CommitStep::Done
        }
    }
}

proof fn first_refusal_stays(replies: Seq<bool>, n: int)
    requires
        0 <= n <= replies.len(),
        first_refusal(replies.take(n)) is Some,
    ensures
        first_refusal(replies) == first_refusal(replies.take(n)),
    decreases replies.len() - n,
{
    if n < replies.len() {
        assert(replies.take(n + 1).drop_last() == replies.take(n));
        first_refusal_stays(replies, n + 1);
    } else {
        assert(replies.take(n) == replies);
    }
}

proof fn first_refusal_bounds(replies: Seq<bool>)
    ensures
        match first_refusal(replies) {
            Some(i) => 0 <= i < replies.len() && !replies[i],
            None => forall|i: int| 0 <= i < replies.len() ==> #[trigger] replies[i],
        },
    decreases replies.len(),
{
    if replies.len() > 0 {
        first_refusal_bounds(replies.drop_last());
        assert forall|i: int|
            first_refusal(replies) is None && 0 <= i < replies.len() implies #[trigger] replies[i] by {
            if i < replies.len() - 1 {
                assert(replies.drop_last()[i] == replies[i]);
            }
        }
    }
}

/// Steam is asked to store changes only after it has accepted every one of them,
/// and only where there is one.
pub proof fn nothing_is_stored_before_all_is_set(
    editor: EditorModel,
    plan: Seq<WriteModel>,
    replies: Seq<bool>,
)
    requires
        committed(editor, plan, replies).1 == CommitStep::Store,
    ensures
        plan.len() > 0,
        replies.len() == plan.len(),
        forall|i: int| 0 <= i < replies.len() ==> #[trigger] replies[i],
{
    assert(replies.take(plan.len() as int) == replies);
    first_refusal_bounds(replies);
}

/// Once Steam has refused a change, no further one is handed to it.
pub proof fn a_refusal_ends_it(
    editor: EditorModel,
    plan: Seq<WriteModel>,
    replies: Seq<bool>,
    i: int,
)
    requires
        0 <= i < replies.len(),
        i < plan.len(),
        !replies[i],
    ensures
        committed(editor, plan, replies).1 == CommitStep::Done,
        committed(editor, plan, replies).0.error is Some,
{
    let tried = if replies.len() < plan.len() {
        replies
    } else {
        replies.take(plan.len() as int)
    };
    assert(tried[i] == replies[i]);
    first_refusal_bounds(tried);
}

/// A typo in one statistic keeps everything from being written, and is pointed
/// out.
pub proof fn a_typo_stops_every_write(editor: EditorModel, numbers: Map<Seq<char>, u32>, i: int)
    requires
        0 <= i < editor.stats.len(),
        rows::verdict_on(editor.stats[i], numbers) is Problem,
    ensures
        planned(editor, numbers).1 is None,
        planned(editor, numbers).0.error is Some,
        planned(editor, numbers).0.stats[i].problem is Some,
        planned(editor, numbers).0.achievements == editor.achievements,
{
    assert(any_problem(editor.stats, numbers));
}

/// A plan leaves out no edit: it holds the change of every achievement that was
/// edited and is not protected, and of every statistic that was edited.
pub proof fn plans_hold_every_edit(editor: EditorModel, numbers: Map<Seq<char>, u32>)
    ensures
        planned(editor, numbers).1 matches Some(plan) ==> {
            &&& forall|i: int|
                0 <= i < editor.achievements.len() && (
                #[trigger] editor.achievements[i]).modified()
                    && !editor.achievements[i].protected() ==> exists|k: int|
                    0 <= k < plan.len() && achievement_write(editor.achievements[i]) == Some(
                        #[trigger] plan[k],
                    )
            &&& forall|i: int|
                0 <= i < editor.stats.len() && (#[trigger] editor.stats[i]).modified()
                    ==> exists|k: int|
                    0 <= k < plan.len() && stat_write(editor.stats[i], numbers) == Some(
                        #[trigger] plan[k],
                    )
        },
{
    if let Some(plan) = planned(editor, numbers).1 {
        let first = achievement_writes(editor.achievements);
        let second = stat_writes(editor.stats, numbers);
        assert forall|i: int|
            0 <= i < editor.achievements.len() && (#[trigger] editor.achievements[i]).modified()
                && !editor.achievements[i].protected() implies exists|k: int|
            0 <= k < plan.len() && achievement_write(editor.achievements[i]) == Some(
                #[trigger] plan[k],
            ) by {
            let k = achievement_write_is_held(editor.achievements, i);
            assert(plan[k] == first[k]);
        }
        assert forall|i: int|
            0 <= i < editor.stats.len() && (#[trigger] editor.stats[i]).modified() implies exists|
            k: int,
        |
            0 <= k < plan.len() && stat_write(editor.stats[i], numbers) == Some(
                #[trigger] plan[k],
            ) by {
            assert(!(rows::verdict_on(editor.stats[i], numbers) is Problem));
            let k = stat_write_is_held(editor.stats, numbers, i);
            assert(plan[first.len() + k] == second[k]);
        }
    }
}

proof fn achievement_write_is_held(list: Seq<RowModel>, i: int) -> (k: int)
    requires
        0 <= i < list.len(),
        achievement_write(list[i]) is Some,
    ensures
        0 <= k < achievement_writes(list).len(),
        achievement_write(list[i]) == Some(achievement_writes(list)[k]),
    decreases list.len(),
{
    if i == list.len() - 1 {
        achievement_writes(list).len() - 1
    } else {
        achievement_write_is_held(list.drop_last(), i)
    }
}

proof fn stat_write_is_held(
    list: Seq<StatRowModel>,
    numbers: Map<Seq<char>, u32>,
    i: int,
) -> (k: int)
    requires
        0 <= i < list.len(),
        stat_write(list[i], numbers) is Some,
    ensures
        0 <= k < stat_writes(list, numbers).len(),
        stat_write(list[i], numbers) == Some(stat_writes(list, numbers)[k]),
    decreases list.len(),
{
    if i == list.len() - 1 {
        stat_writes(list, numbers).len() - 1
    } else {
        stat_write_is_held(list.drop_last(), numbers, i)
    }
}

/// The change belongs to no statistic, or sets one to a number that its bounds
/// allow.
pub open spec fn planned_within_bounds(
    editor: EditorModel,
    numbers: Map<Seq<char>, u32>,
    write: WriteModel,
) -> bool {
    match write {
        WriteModel::Achievement { .. } => true,
        WriteModel::Integer { value, .. } => exists|i: int|
            0 <= i < editor.stats.len() && stat_write(#[trigger] editor.stats[i], numbers) == Some(
                write,
            ) && rows::allows_integer(editor.stats[i].bounds, value as int),
        WriteModel::Float { bits, .. } => exists|i: int|
            0 <= i < editor.stats.len() && stat_write(#[trigger] editor.stats[i], numbers) == Some(
                write,
            ) && rows::allows_float(editor.stats[i].bounds, bits, numbers),
    }
}

/// Whatever was typed, no plan sets a statistic to a number outside the bounds
/// that the schema gives it.
pub proof fn plans_keep_the_bounds(editor: EditorModel, numbers: Map<Seq<char>, u32>)
    ensures
        planned(editor, numbers).1 matches Some(plan) ==> forall|k: int|
            0 <= k < plan.len() ==> planned_within_bounds(editor, numbers, #[trigger] plan[k]),
{
    plans_leave_protected_rows_alone(editor, numbers);
    if let Some(plan) = planned(editor, numbers).1 {
        assert forall|k: int| 0 <= k < plan.len() implies planned_within_bounds(
            editor,
            numbers,
            #[trigger] plan[k],
        ) by {
            assert(planned_for_editable(editor, numbers, plan[k]));
        }
    }
}

/// Whatever was typed, a plan changes only rows that were edited and are not
/// protected.
pub proof fn plans_leave_protected_rows_alone(editor: EditorModel, numbers: Map<Seq<char>, u32>)
    ensures
        planned(editor, numbers).1 matches Some(plan) ==> forall|k: int|
            0 <= k < plan.len() ==> planned_for_editable(editor, numbers, #[trigger] plan[k]),
{
    if let Some(plan) = planned(editor, numbers).1 {
        achievement_writes_are_editable(editor, numbers, editor.achievements.len() as int);
        stat_writes_are_editable(editor, numbers, editor.stats.len() as int);
        assert(editor.achievements.take(editor.achievements.len() as int) == editor.achievements);
        assert(editor.stats.take(editor.stats.len() as int) == editor.stats);
        let first = achievement_writes(editor.achievements);
        assert forall|k: int| 0 <= k < plan.len() implies planned_for_editable(
            editor,
            numbers,
            #[trigger] plan[k],
        ) by {
            if k < first.len() {
                assert(plan[k] == first[k]);
            } else {
                assert(plan[k] == stat_writes(editor.stats, numbers)[k - first.len()]);
            }
        }
    }
}

/// The change belongs to a row that was edited and is not protected.
pub open spec fn planned_for_editable(
    editor: EditorModel,
    numbers: Map<Seq<char>, u32>,
    write: WriteModel,
) -> bool {
    ||| exists|i: int|
        0 <= i < editor.achievements.len() && !(#[trigger] editor.achievements[i]).protected()
            && editor.achievements[i].modified() && achievement_write(editor.achievements[i])
            == Some(write)
    ||| exists|i: int|
        0 <= i < editor.stats.len() && !(#[trigger] editor.stats[i]).protected()
            && editor.stats[i].modified() && stat_write(editor.stats[i], numbers) == Some(write)
}

proof fn achievement_writes_are_editable(
    editor: EditorModel,
    numbers: Map<Seq<char>, u32>,
    n: int,
)
    requires
        0 <= n <= editor.achievements.len(),
    ensures
        forall|k: int|
            0 <= k < achievement_writes(editor.achievements.take(n)).len()
                ==> planned_for_editable(
                editor,
                numbers,
                #[trigger] achievement_writes(editor.achievements.take(n))[k],
            ),
    decreases n,
{
    if n > 0 {
        achievement_writes_are_editable(editor, numbers, n - 1);
        assert(editor.achievements.take(n).drop_last() == editor.achievements.take(n - 1));
        assert(editor.achievements.take(n).last() == editor.achievements[n - 1]);
        let was = achievement_writes(editor.achievements.take(n - 1));
        let now = achievement_writes(editor.achievements.take(n));
        assert forall|k: int| 0 <= k < now.len() implies planned_for_editable(
            editor,
            numbers,
            #[trigger] now[k],
        ) by {
            if k < was.len() {
                assert(now[k] == was[k]);
            } else {
                assert(achievement_write(editor.achievements[n - 1]) == Some(now[k]));
            }
        }
    }
}

proof fn stat_writes_are_editable(editor: EditorModel, numbers: Map<Seq<char>, u32>, n: int)
    requires
        0 <= n <= editor.stats.len(),
    ensures
        forall|k: int|
            0 <= k < stat_writes(editor.stats.take(n), numbers).len() ==> planned_for_editable(
                editor,
                numbers,
                #[trigger] stat_writes(editor.stats.take(n), numbers)[k],
            ),
    decreases n,
{
    if n > 0 {
        stat_writes_are_editable(editor, numbers, n - 1);
        assert(editor.stats.take(n).drop_last() == editor.stats.take(n - 1));
        assert(editor.stats.take(n).last() == editor.stats[n - 1]);
        let was = stat_writes(editor.stats.take(n - 1), numbers);
        let now = stat_writes(editor.stats.take(n), numbers);
        assert forall|k: int| 0 <= k < now.len() implies planned_for_editable(
            editor,
            numbers,
            #[trigger] now[k],
        ) by {
            if k < was.len() {
                assert(now[k] == was[k]);
            } else {
                assert(stat_write(editor.stats[n - 1], numbers) == Some(now[k]));
            }
        }
    }
}

/// An achievement's row with the box ticked or not, where it can be edited.
pub open spec fn set_to(row: RowModel, checked: bool) -> RowModel {
    if row.protected() {
        row
    } else {
        RowModel { current: checked, ..row }
    }
}

/// An achievement's row as Steam reports it.
pub open spec fn reverted(row: RowModel) -> RowModel {
    RowModel { current: row.original, ..row }
}

/// A statistic's row as Steam reports it.
pub open spec fn reverted_stat(row: StatRowModel) -> StatRowModel {
    StatRowModel { text: rows::value_text(row.value), problem: None, ..row }
}

/// How many achievements were edited.
pub open spec fn modified_rows(list: Seq<RowModel>) -> nat
    decreases list.len(),
{
    if list.len() == 0 {
        0
    } else if list.last().modified() {
        modified_rows(list.drop_last()) + 1
    } else {
        modified_rows(list.drop_last())
    }
}

/// How many statistics were edited.
pub open spec fn modified_stats(list: Seq<StatRowModel>) -> nat
    decreases list.len(),
{
    if list.len() == 0 {
        0
    } else if list.last().modified() {
        modified_stats(list.drop_last()) + 1
    } else {
        modified_stats(list.drop_last())
    }
}

/// How many rows were edited.
pub open spec fn pending(editor: EditorModel) -> nat {
    modified_rows(editor.achievements) + modified_stats(editor.stats)
}

/// A count, as far as a machine can count.
pub open spec fn counted(n: nat) -> nat {
    if n <= usize::MAX {
        n
    } else {
        usize::MAX as nat
    }
}

/// The texts to read as real numbers before some rows are judged, in order.
pub open spec fn texts_to_read(list: Seq<StatRowModel>) -> Seq<Seq<char>>
    decreases list.len(),
{
    if list.len() == 0 {
        Seq::empty()
    } else {
        texts_to_read(list.drop_last()) + rows::texts_to_read(list.last())
    }
}

/// What the user did in the dialog that asks whether to reset everything.
#[derive(Debug, Clone, Copy, PartialEq, Eq, Structural)]
pub struct DialogInput {
    pub cancelled: bool,
    pub confirmed: bool,
    /// Whether achievements go too, as ticked now.
    pub achievements_too: bool,
}

/// What follows from the dialog: where it has got to, and whether to reset, and
/// with the achievements or without.
pub open spec fn after_dialog(stage: ResetStage, input: DialogInput) -> (ResetStage, Option<bool>) {
    if stage == ResetStage::Idle {
        (stage, None)
    } else if input.cancelled {
        (ResetStage::Idle, None)
    } else if input.confirmed {
        (stage, Some(input.achievements_too))
    } else {
        (ResetStage::Confirming { achievements_too: input.achievements_too }, None)
    }
}

impl EditorApp {
    /// The texts to read as real numbers before changes are stored: those that
    /// were typed, and the bounds that the schema gives as text.
    pub fn float_texts(&self) -> (r: Vec<String>)
        ensures
            text::texts_of(r@) == texts_to_read(self@.stats),
    {
        let ghost list = self@.stats;
        let mut r: Vec<String> = Vec::new();
        assert(text::texts_of(r@) =~= texts_to_read(list.take(0)));
        for i in 0..self.stats.len()
            invariant
                list == stat_row_models(self.stats@),
                text::texts_of(r@) == texts_to_read(list.take(i as int)),
        {
            let ghost was = text::texts_of(r@);
            let mut more = self.stats[i].float_texts();
            let ghost added = text::texts_of(more@);
            proof {
                assert(list.take(i + 1).drop_last() == list.take(i as int));
                assert(list.take(i + 1).last() == self.stats@[i as int]@);
            }
            r.append(&mut more);
            assert(text::texts_of(r@) =~= was + added);
        }
        assert(list.take(list.len() as int) == list);
        r
    }

    /// How many rows were edited.
    pub fn pending_changes(&self) -> (r: usize)
        ensures
            r == counted(pending(self@)),
    {
        let ghost list = self@.achievements;
        let mut first: usize = 0;
        for i in 0..self.achievements.len()
            invariant
                list == row_models(self.achievements@),
                first <= i,
                first == modified_rows(list.take(i as int)),
        {
            proof {
                assert(list.take(i + 1).drop_last() == list.take(i as int));
                assert(list.take(i + 1).last() == self.achievements@[i as int]@);
            }
            if self.achievements[i].is_modified() {
                first = first + 1;
            }
        }
        assert(list.take(list.len() as int) == list);
        let ghost stats = self@.stats;
        let mut second: usize = 0;
        for i in 0..self.stats.len()
            invariant
                stats == stat_row_models(self.stats@),
                second <= i,
                second == modified_stats(stats.take(i as int)),
        {
            proof {
                assert(stats.take(i + 1).drop_last() == stats.take(i as int));
                assert(stats.take(i + 1).last() == self.stats@[i as int]@);
            }
            if self.stats[i].is_modified() {
                second = second + 1;
            }
        }
        assert(stats.take(stats.len() as int) == stats);
        first.saturating_add(second)
    }

    /// Ticks an achievement's box or unticks it. A protected one stays as it is.
    pub fn set_checked(&mut self, index: usize, checked: bool)
        requires
            index < old(self)@.achievements.len(),
        ensures
            final(self)@ == (EditorModel {
                achievements: old(self)@.achievements.update(
                    index as int,
                    set_to(old(self)@.achievements[index as int], checked),
                ),
                ..old(self)@
            }),
    {
        let ghost before = self@;
        if !self.achievements[index].is_protected() {
            self.achievements[index].current = checked;
        }
        assert(self@.achievements =~= before.achievements.update(
            index as int,
            set_to(before.achievements[index as int], checked),
        ));
    }

    /// Ticks every box that can be ticked, or unticks it.
    fn set_all(&mut self, checked: bool)
        ensures
            final(self)@ == (EditorModel {
                achievements: old(self)@.achievements.map_values(
                    |row: RowModel| set_to(row, checked),
                ),
                ..old(self)@
            }),
    {
        let ghost before = self@;
        let count = self.achievements.len();
        for i in 0..count
            invariant
                count == self.achievements@.len(),
                count == before.achievements.len(),
                self@ == (EditorModel { achievements: self@.achievements, ..before }),
                forall|k: int|
                    0 <= k < count ==> #[trigger] self@.achievements[k] == if k < i {
                        set_to(before.achievements[k], checked)
                    } else {
                        before.achievements[k]
                    },
        {
            let ghost was = self@;
            self.set_checked(i, checked);
            assert(self@.achievements.len() == self.achievements@.len());
            assert forall|k: int| 0 <= k < count implies #[trigger] self@.achievements[k] == if k
                < i + 1 {
                set_to(before.achievements[k], checked)
            } else {
                before.achievements[k]
            } by {
                assert(was.achievements[k] == if k < i {
                    set_to(before.achievements[k], checked)
                } else {
                    before.achievements[k]
                });
            }
        }
        assert(self@.achievements =~= before.achievements.map_values(
            |row: RowModel| set_to(row, checked),
        ));
    }

    /// Unlocks every achievement that is not protected.
    pub fn unlock_all(&mut self)
        ensures
            final(self)@ == (EditorModel {
                achievements: old(self)@.achievements.map_values(
                    |row: RowModel| set_to(row, true),
                ),
                ..old(self)@
            }),
    {
        self.set_all(true);
    }

    /// Locks every achievement that is not protected.
    pub fn lock_all(&mut self)
        ensures
            final(self)@ == (EditorModel {
                achievements: old(self)@.achievements.map_values(
                    |row: RowModel| set_to(row, false),
                ),
                ..old(self)@
            }),
    {
        self.set_all(false);
    }

    /// Turns every achievement over that is not protected.
    pub fn invert(&mut self)
        ensures
            final(self)@ == (EditorModel {
                achievements: old(self)@.achievements.map_values(
                    |row: RowModel| set_to(row, !row.current),
                ),
                ..old(self)@
            }),
    {
        let ghost before = self@;
        let count = self.achievements.len();
        for i in 0..count
            invariant
                count == self.achievements@.len(),
                count == before.achievements.len(),
                self@ == (EditorModel { achievements: self@.achievements, ..before }),
                forall|k: int|
                    0 <= k < count ==> #[trigger] self@.achievements[k] == if k < i {
                        set_to(before.achievements[k], !before.achievements[k].current)
                    } else {
                        before.achievements[k]
                    },
        {
            let ghost was = self@;
            let turned = !self.achievements[i].current;
            assert(was.achievements[i as int] == before.achievements[i as int]);
            self.set_checked(i, turned);
            assert(self@.achievements.len() == self.achievements@.len());
            assert forall|k: int| 0 <= k < count implies #[trigger] self@.achievements[k] == if k
                < i + 1 {
                set_to(before.achievements[k], !before.achievements[k].current)
            } else {
                before.achievements[k]
            } by {
                assert(was.achievements[k] == if k < i {
                    set_to(before.achievements[k], !before.achievements[k].current)
                } else {
                    before.achievements[k]
                });
            }
        }
        assert(self@.achievements =~= before.achievements.map_values(
            |row: RowModel| set_to(row, !row.current),
        ));
    }

    /// Takes every edit back.
    pub fn revert(&mut self)
        ensures
            final(self)@ == (EditorModel {
                achievements: old(self)@.achievements.map_values(|row: RowModel| reverted(row)),
                stats: old(self)@.stats.map_values(|row: StatRowModel| reverted_stat(row)),
                ..old(self)@
            }),
    {
        let ghost before = self@;
        let count = self.achievements.len();
        for i in 0..count
            invariant
                count == self.achievements@.len(),
                count == before.achievements.len(),
                self@ == (EditorModel { achievements: self@.achievements, ..before }),
                forall|k: int|
                    0 <= k < count ==> #[trigger] self@.achievements[k] == if k < i {
                        reverted(before.achievements[k])
                    } else {
                        before.achievements[k]
                    },
        {
            let ghost was = self@;
            let original = self.achievements[i].original;
            self.achievements[i].current = original;
            assert forall|k: int| 0 <= k < count implies #[trigger] self@.achievements[k] == if k
                < i + 1 {
                reverted(before.achievements[k])
            } else {
                before.achievements[k]
            } by {
                assert(was.achievements[k] == if k < i {
                    reverted(before.achievements[k])
                } else {
                    before.achievements[k]
                });
                if k != i {
                    assert(self@.achievements[k] == was.achievements[k]);
                }
            }
        }
        let ghost turned = before.achievements.map_values(|row: RowModel| reverted(row));
        assert(self@.achievements =~= turned);
        let stat_count = self.stats.len();
        for i in 0..stat_count
            invariant
                stat_count == self.stats@.len(),
                stat_count == before.stats.len(),
                self@ == (EditorModel { achievements: turned, stats: self@.stats, ..before }),
                forall|k: int|
                    0 <= k < stat_count ==> #[trigger] self@.stats[k] == if k < i {
                        reverted_stat(before.stats[k])
                    } else {
                        before.stats[k]
                    },
        {
            let ghost was = self@;
            let original = self.stats[i].original_text();
            assert(was.stats[i as int] == before.stats[i as int]);
            self.stats[i].text = original;
            self.stats[i].problem = None;
            assert forall|k: int| 0 <= k < stat_count implies #[trigger] self@.stats[k] == if k < i
                + 1 {
                reverted_stat(before.stats[k])
            } else {
                before.stats[k]
            } by {
                assert(was.stats[k] == if k < i {
                    reverted_stat(before.stats[k])
                } else {
                    before.stats[k]
                });
                if k != i {
                    assert(self@.stats[k] == was.stats[k]);
                }
            }
        }
        assert(self@.stats =~= before.stats.map_values(|row: StatRowModel| reverted_stat(row)));
    }

    /// Takes what was typed for a statistic, where statistics may be edited and
    /// this one is not protected.
    pub fn edit_stat(&mut self, index: usize, typed: String)
        requires
            index < old(self)@.stats.len(),
        ensures
            final(self)@ == if old(self)@.allow_stat_edits && !old(
                self,
            )@.stats[index as int].protected() {
                EditorModel {
                    stats: old(self)@.stats.update(
                        index as int,
                        StatRowModel {
                            text: typed@,
                            problem: None,
                            ..old(self)@.stats[index as int]
                        },
                    ),
                    ..old(self)@
                }
            } else {
                old(self)@
            },
    {
        let ghost before = self@;
        if self.allow_stat_edits && !self.stats[index].is_protected() {
            self.stats[index].text = typed;
            self.stats[index].problem = None;
            assert(self@.stats =~= before.stats.update(
                index as int,
                StatRowModel { text: typed@, problem: None, ..before.stats[index as int] },
            ));
        }
    }

    /// Asks whether to reset everything.
    pub fn ask_reset(&mut self)
        ensures
            final(self)@ == (EditorModel {
                reset: ResetStage::Confirming { achievements_too: false },
                ..old(self)@
            }),
    {
        self.reset = ResetStage::Confirming { achievements_too: false };
    }

    /// Takes what the user did in the dialog, and says whether to reset, and
    /// with the achievements or without.
    pub fn reset_dialog(&mut self, input: DialogInput) -> (r: Option<bool>)
        ensures
            final(self)@ == (EditorModel {
                reset: after_dialog(old(self)@.reset, input).0,
                ..old(self)@
            }),
            r == after_dialog(old(self)@.reset, input).1,
    {
        match self.reset {
            ResetStage::Idle => None,
            ResetStage::Confirming { .. } => {
                if input.cancelled {
                    self.reset = ResetStage::Idle;
                    None
                } else if input.confirmed {
                    Some(input.achievements_too)
                } else {
                    self.reset = ResetStage::Confirming {
                        achievements_too: input.achievements_too,
                    };
                    None
                }
            },
        }
    }

    /// Takes Steam's answer to a reset. Where it was done, the stats are to be
    /// requested anew.
    pub fn perform_reset(&mut self, done: bool) -> (r: bool)
        ensures
            r == done,
            final(self)@ == if done {
                reloading(EditorModel { reset: ResetStage::Idle, ..old(self)@ })
            } else {
                EditorModel {
                    reset: ResetStage::Idle,
                    error: Some("Steam refused the reset."@),
                    ..old(self)@
                }
            },
    {
        self.reset = ResetStage::Idle;
        if done {
            self.request_reload();
        } else {
            self.error = Some("Steam refused the reset.".to_owned());
        }
        done
    }
}

/// Nothing is reset but after the dialog was shown and confirmed.
pub proof fn resets_are_confirmed(stage: ResetStage, input: DialogInput)
    ensures
        after_dialog(stage, input).1 is Some ==> stage is Confirming && input.confirmed
            && !input.cancelled,
{
}

/// Turning the achievements over twice changes nothing.
pub proof fn inverting_twice_changes_nothing(list: Seq<RowModel>)
    ensures
        list.map_values(|row: RowModel| set_to(row, !row.current)).map_values(
            |row: RowModel| set_to(row, !row.current),
        ) == list,
{
    assert(list.map_values(|row: RowModel| set_to(row, !row.current)).map_values(
        |row: RowModel| set_to(row, !row.current),
    ) =~= list);
}

/// Every value's text has no white space at its ends. Whole numbers have none
/// anyway; for real numbers it is up to the texts that were handed in.
pub open spec fn texts_are_trim(list: Seq<StatRowModel>) -> bool {
    forall|i: int|
        0 <= i < list.len() ==> ((#[trigger] list[i]).value matches ValueModel::Float { shown, .. }
            ==> text::trimmed(shown) == shown)
}

proof fn unedited_stats_count_nothing(list: Seq<StatRowModel>)
    requires
        texts_are_trim(list),
        forall|i: int|
            0 <= i < list.len() ==> (#[trigger] list[i]).text == rows::value_text(list[i].value),
    ensures
        modified_stats(list) == 0,
    decreases list.len(),
{
    if list.len() > 0 {
        let shorter = list.drop_last();
        assert forall|i: int| 0 <= i < shorter.len() implies (#[trigger] shorter[i]).text
            == rows::value_text(shorter[i].value) by {
            assert(shorter[i] == list[i]);
        }
        assert forall|i: int| 0 <= i < shorter.len() implies ((
        #[trigger] shorter[i]).value matches ValueModel::Float { shown, .. } ==> text::trimmed(
            shown,
        ) == shown) by {
            assert(shorter[i] == list[i]);
        }
        unedited_stats_count_nothing(shorter);
        let row = list[list.len() - 1];
        if let ValueModel::Integer { original } = row.value {
            text::signed_decimal_is_trim(original as int);
        }
    }
}

proof fn unedited_rows_count_nothing(list: Seq<RowModel>)
    requires
        forall|i: int| 0 <= i < list.len() ==> (#[trigger] list[i]).current == list[i].original,
    ensures
        modified_rows(list) == 0,
    decreases list.len(),
{
    if list.len() > 0 {
        let shorter = list.drop_last();
        assert forall|i: int| 0 <= i < shorter.len() implies (#[trigger] shorter[i]).current
            == shorter[i].original by {
            assert(shorter[i] == list[i]);
        }
        unedited_rows_count_nothing(shorter);
        assert(list[list.len() - 1].current == list[list.len() - 1].original);
    }
}

/// After taking every edit back, nothing is pending.
pub proof fn reverting_leaves_nothing_pending(editor: EditorModel)
    requires
        texts_are_trim(editor.stats),
    ensures
        pending(
            EditorModel {
                achievements: editor.achievements.map_values(|row: RowModel| reverted(row)),
                stats: editor.stats.map_values(|row: StatRowModel| reverted_stat(row)),
                ..editor
            },
        ) == 0,
{
    let stats = editor.stats.map_values(|row: StatRowModel| reverted_stat(row));
    assert forall|i: int| 0 <= i < stats.len() implies ((
    #[trigger] stats[i]).value matches ValueModel::Float { shown, .. } ==> text::trimmed(shown)
        == shown) by {
        assert(stats[i].value == editor.stats[i].value);
    }
    unedited_stats_count_nothing(stats);
    unedited_rows_count_nothing(editor.achievements.map_values(|row: RowModel| reverted(row)));
}

proof fn loaded_achievements_unedited(
    defs: Seq<AchievementModel>,
    replies: Seq<Option<(bool, u32)>>,
)
    ensures
        forall|i: int|
            0 <= i < loaded_achievements(defs, replies).len() ==> (#[trigger] loaded_achievements(
                defs,
                replies,
            )[i]).current == loaded_achievements(defs, replies)[i].original,
    decreases defs.len(),
{
    if defs.len() > 0 {
        loaded_achievements_unedited(defs.drop_last(), replies);
        let before = loaded_achievements(defs.drop_last(), replies);
        let now = loaded_achievements(defs, replies);
        assert forall|i: int| 0 <= i < now.len() implies (#[trigger] now[i]).current
            == now[i].original by {
            if i < before.len() {
                assert(now[i] == before[i]);
            }
        }
    }
}

proof fn loaded_stats_unedited(defs: Seq<StatModel>, replies: Seq<Option<ValueModel>>)
    requires
        forall|i: int|
            0 <= i < replies.len() ==> (#[trigger] replies[i] matches Some(
                ValueModel::Float { shown, .. },
            ) ==> text::trimmed(shown) == shown),
    ensures
        texts_are_trim(loaded_stats(defs, replies)),
        forall|i: int|
            0 <= i < loaded_stats(defs, replies).len() ==> (#[trigger] loaded_stats(
                defs,
                replies,
            )[i]).text == rows::value_text(loaded_stats(defs, replies)[i].value),
    decreases defs.len(),
{
    if defs.len() > 0 {
        loaded_stats_unedited(defs.drop_last(), replies);
    }
}

/// Right after loading, nothing is pending.
pub proof fn loading_leaves_nothing_pending(
    editor: EditorModel,
    resolution: ResolutionModel,
    achievements: Seq<Option<(bool, u32)>>,
    stats: Seq<Option<ValueModel>>,
)
    requires
        forall|i: int|
            0 <= i < stats.len() ==> (#[trigger] stats[i] matches Some(
                ValueModel::Float { shown, .. },
            ) ==> text::trimmed(shown) == shown),
    ensures
        pending(loaded(editor, resolution, achievements, stats)) == 0,
{
    loaded_achievements_unedited(editor.schema.achievements, achievements);
    loaded_stats_unedited(editor.schema.stats, stats);
    unedited_rows_count_nothing(
        loaded_achievements(editor.schema.achievements, achievements),
    );
    unedited_stats_count_nothing(loaded_stats(editor.schema.stats, stats));
}

/// Every achievement that Steam knows has a row, which says what Steam replied.
pub proof fn replies_become_rows(
    defs: Seq<AchievementModel>,
    replies: Seq<Option<(bool, u32)>>,
    i: int,
)
    requires
        0 <= i < defs.len(),
        i < replies.len(),
        replies[i] is Some,
    ensures
        ({
            let list = loaded_achievements(defs, replies);
            let (unlocked, time) = replies[i]->0;
            exists|k: int|
                0 <= k < list.len() && (#[trigger] list[k]).id == defs[i].id && list[k].original
                    == unlocked && list[k].current == unlocked && list[k].unlock_time == time
                    && list[k] == rows::row_of(defs[i], unlocked, time)
        }),
    decreases defs.len(),
{
    let list = loaded_achievements(defs, replies);
    let before = loaded_achievements(defs.drop_last(), replies);
    let (unlocked, time) = replies[i]->0;
    if i < defs.len() - 1 {
        replies_become_rows(defs.drop_last(), replies, i);
        let k = choose|k: int|
            0 <= k < before.len() && (#[trigger] before[k]).id == defs.drop_last()[i].id
                && before[k].original == unlocked && before[k].current == unlocked
                && before[k].unlock_time == time && before[k] == rows::row_of(
                defs.drop_last()[i],
                unlocked,
                time,
            );
        assert(list[k] == before[k]);
    } else {
        assert(list[before.len() as int] == rows::row_of(defs[i], unlocked, time));
    }
}

/// Every row of an achievement is that of one which Steam knows.
pub proof fn rows_come_from_replies(
    defs: Seq<AchievementModel>,
    replies: Seq<Option<(bool, u32)>>,
    k: int,
) -> (i: int)
    requires
        0 <= k < loaded_achievements(defs, replies).len(),
    ensures
        0 <= i < defs.len(),
        i < replies.len(),
        replies[i] matches Some((unlocked, time)) && loaded_achievements(defs, replies)[k]
            == rows::row_of(defs[i], unlocked, time),
    decreases defs.len(),
{
    let before = loaded_achievements(defs.drop_last(), replies);
    if k < before.len() {
        rows_come_from_replies(defs.drop_last(), replies, k)
    } else {
        defs.len() - 1
    }
}

/// Rows come in the order of the definitions: those of the first definitions, and behind
/// them those of the others.
pub proof fn rows_follow_the_schema(
    first: Seq<AchievementModel>,
    second: Seq<AchievementModel>,
    replies: Seq<Option<(bool, u32)>>,
    more: Seq<Option<(bool, u32)>>,
)
    requires
        replies.len() == first.len(),
    ensures
        loaded_achievements(first + second, replies + more) == loaded_achievements(first, replies)
            + loaded_achievements(second, more),
    decreases second.len(),
{
    let all = first + second;
    let given = replies + more;
    if second.len() == 0 {
        assert(all =~= first);
        earlier_replies_count(first, replies, more);
        assert(loaded_achievements(all, given) =~= loaded_achievements(first, replies)
            + loaded_achievements(second, more));
    } else {
        rows_follow_the_schema(first, second.drop_last(), replies, more);
        assert(all.drop_last() =~= first + second.drop_last());
        assert(all.last() == second.last());
        let k = second.len() - 1;
        assert(all.len() - 1 == first.len() + k);
        if k < more.len() {
            assert(given[first.len() + k] == more[k]);
        }
        assert(loaded_achievements(all, given) =~= loaded_achievements(first, replies)
            + loaded_achievements(second, more));
    }
}

proof fn earlier_replies_count(
    defs: Seq<AchievementModel>,
    replies: Seq<Option<(bool, u32)>>,
    more: Seq<Option<(bool, u32)>>,
)
    requires
        defs.len() <= replies.len(),
    ensures
        loaded_achievements(defs, replies + more) == loaded_achievements(defs, replies),
    decreases defs.len(),
{
    if defs.len() > 0 {
        earlier_replies_count(defs.drop_last(), replies, more);
        assert((replies + more)[defs.len() - 1] == replies[defs.len() - 1]);
    }
}

/// Every statistic of which Steam knows a value of the right type has a row, which holds
/// that value.
pub proof fn values_become_rows(
    defs: Seq<StatModel>,
    replies: Seq<Option<ValueModel>>,
    i: int,
)
    requires
        0 <= i < defs.len(),
        i < replies.len(),
        replies[i] matches Some(value) && (value is Integer <==> defs[i].bounds is Integer),
    ensures
        ({
            let list = loaded_stats(defs, replies);
            exists|k: int|
                0 <= k < list.len() && (#[trigger] list[k]).id == defs[i].id && Some(list[k].value)
                    == replies[i] && Some(list[k]) == rows::stat_row_of(defs[i], replies[i]->0)
        }),
    decreases defs.len(),
{
    let list = loaded_stats(defs, replies);
    let before = loaded_stats(defs.drop_last(), replies);
    if i < defs.len() - 1 {
        values_become_rows(defs.drop_last(), replies, i);
        let k = choose|k: int|
            0 <= k < before.len() && (#[trigger] before[k]).id == defs.drop_last()[i].id && Some(
                before[k].value,
            ) == replies[i] && Some(before[k]) == rows::stat_row_of(
                defs.drop_last()[i],
                replies[i]->0,
            );
        assert(list[k] == before[k]);
    } else {
        assert(Some(list[before.len() as int]) == rows::stat_row_of(defs[i], replies[i]->0));
    }
}

/// Every row of a statistic is that of one of which Steam knows a value.
pub proof fn stat_rows_come_from_values(
    defs: Seq<StatModel>,
    replies: Seq<Option<ValueModel>>,
    k: int,
) -> (i: int)
    requires
        0 <= k < loaded_stats(defs, replies).len(),
    ensures
        0 <= i < defs.len(),
        i < replies.len(),
        replies[i] matches Some(value) && rows::stat_row_of(defs[i], value) == Some(
            loaded_stats(defs, replies)[k],
        ),
    decreases defs.len(),
{
    let before = loaded_stats(defs.drop_last(), replies);
    if k < before.len() {
        stat_rows_come_from_values(defs.drop_last(), replies, k)
    } else {
        defs.len() - 1
    }
}

/// Once the stats have arrived the editor is no longer waiting, works with the overload
/// order that was found, tells how many rows there are, and points out an order that
/// could not be proved where there are statistics that it matters for.
pub proof fn loading_is_reported(
    editor: EditorModel,
    resolution: ResolutionModel,
    achievements: Seq<Option<(bool, u32)>>,
    stats: Seq<Option<ValueModel>>,
)
    ensures
        ({
            let after = loaded(editor, resolution, achievements, stats);
            &&& !after.loading && after.loaded_once
            &&& after.order == resolution.order && after.confidence == resolution.confidence
            &&& after.achievements == loaded_achievements(editor.schema.achievements, achievements)
            &&& after.stats == loaded_stats(editor.schema.stats, stats)
            &&& exists|a: Seq<char>, b: Seq<char>, c: Seq<char>|
                after.status == #[trigger] (a + text::decimal(after.achievements.len()) + b
                    + text::decimal(after.stats.len()) + c)
            &&& resolution.confidence is Confirmed || after.stats.len() == 0 ==> after.notice
                == editor.notice
            &&& resolution.confidence matches ConfidenceModel::Assumed(reason) ==> after.stats.len()
                > 0 ==> (after.notice matches Some(words) && exists|a: Seq<char>, b: Seq<char>|
                words == #[trigger] (a + reason + b))
            &&& after.app_id == editor.app_id && after.schema == editor.schema
            &&& after.search == editor.search && after.filter == editor.filter && after.tab
                == editor.tab
            &&& after.error == editor.error && after.reset == editor.reset
            &&& after.allow_stat_edits == editor.allow_stat_edits && after.show_icons
                == editor.show_icons
        }),
{
    let after = loaded(editor, resolution, achievements, stats);
    assert(after.status == "Retrieved "@ + text::decimal(after.achievements.len())
        + " achievements and "@ + text::decimal(after.stats.len()) + " statistics."@);
    if let ConfidenceModel::Assumed(reason) = resolution.confidence {
        if after.stats.len() > 0 {
            assert(after.notice->0 == "Stat type ordering could not be verified ("@ + reason
                + "). Achievements are unaffected; take care when editing statistics."@);
        }
    }
}

/// Stats are read once they have arrived for the editor's app, or for none in particular;
/// those of another app change nothing. Where they did not arrive, the editor stops waiting
/// and says so.
pub proof fn only_its_own_stats_are_read(
    editor: EditorModel,
    game_id: u64,
    result: i32,
    steam_id: u64,
)
    ensures
        ({
            let event = CallbackEvent::UserStatsReceived { game_id, result, steam_id };
            let (after, action) = after_event(editor, event);
            let own = game_id == 0 || game_id as nat % 0x1_0000_0000 == editor.app_id;
            &&& action == EventAction::LoadRows <==> own && result == 1
            &&& !own || result == 1 ==> after == editor
            &&& own && result != 1 ==> {
                &&& !after.loading
                &&& after.error is Some
                &&& after == EditorModel { loading: false, error: after.error, ..editor }
            }
        }),
{
}

/// The answer to a store is told only where it is bad, and other callbacks change nothing.
pub proof fn rejected_stores_are_told(editor: EditorModel, event: CallbackEvent)
    requires
        !(event is UserStatsReceived),
    ensures
        after_event(editor, event).1 == EventAction::Nothing,
        event matches CallbackEvent::UserStatsStored { result, .. } && result != 1 ==> {
            let after = after_event(editor, event).0;
            &&& after.error is Some
            &&& after == EditorModel { error: after.error, ..editor }
        },
        !(event matches CallbackEvent::UserStatsStored { result, .. } && result != 1)
            ==> after_event(editor, event).0 == editor,
{
}

/// A result is told by its number, unless it has words of its own; and no two results are
/// told in the same words.
pub proof fn results_are_told(result: i32)
    ensures
        result != 1 && result != 2 && result != 8 ==> exists|a: Seq<char>|
            result_words(result) == #[trigger] (a + text::signed_decimal(result as int)),
        result_words(1) == "ok"@,
{
    if result != 1 && result != 2 && result != 8 {
        assert(result_words(result) == "EResult "@ + text::signed_decimal(result as int));
    }
}

/// A change of a plan is one that the rows call for: it ticks or unticks an achievement
/// that was edited, or sets a statistic that was edited to the number that was typed for
/// it. What is protected is not touched, and the label is what the row is called.
pub open spec fn called_for(
    editor: EditorModel,
    numbers: Map<Seq<char>, u32>,
    write: WriteModel,
) -> bool {
    match write {
        WriteModel::Achievement { id, unlocked, label } => exists|i: int|
            {
                &&& 0 <= i < editor.achievements.len()
                &&& (#[trigger] editor.achievements[i]).id == id
                &&& editor.achievements[i].name == label
                &&& editor.achievements[i].current == unlocked
                &&& editor.achievements[i].original != unlocked
                &&& editor.achievements[i].permission as int % 4 == 0
            },
        WriteModel::Integer { id, value, label } => exists|i: int|
            {
                &&& 0 <= i < editor.stats.len()
                &&& (#[trigger] editor.stats[i]).id == id
                &&& editor.stats[i].display_name == label
                &&& editor.stats[i].value is Integer
                &&& text::read_i32(text::trimmed(editor.stats[i].text)) == Some(value as int)
                &&& editor.stats[i].permission as int % 4 == 0
            },
        WriteModel::Float { id, bits, label } => exists|i: int|
            {
                &&& 0 <= i < editor.stats.len()
                &&& (#[trigger] editor.stats[i]).id == id
                &&& editor.stats[i].display_name == label
                &&& editor.stats[i].value is Float
                &&& numbers.contains_key(text::trimmed(editor.stats[i].text))
                &&& numbers[text::trimmed(editor.stats[i].text)] == bits
                &&& editor.stats[i].permission as int % 4 == 0
            },
    }
}

proof fn verdicts_write_what_was_typed(row: StatRowModel, numbers: Map<Seq<char>, u32>)
    ensures
        match rows::verdict_on(row, numbers) {
            VerdictModel::Integer { value } => row.value is Integer && text::read_i32(
                text::trimmed(row.text),
            ) == Some(value as int) && row.permission as int % 4 == 0,
            VerdictModel::Float { bits } => row.value is Float && numbers.contains_key(
                text::trimmed(row.text),
            ) && numbers[text::trimmed(row.text)] == bits && row.permission as int % 4 == 0,
            _ => true,
        },
{
    crate::schema::two_lowest_bits_protect(row.permission);
    if let ValueModel::Integer { original } = row.value {
        if let Some(value) = text::read_i32(text::trimmed(row.text)) {
            assert(i32::MIN <= value <= i32::MAX);
        }
    }
}

/// Every change of a plan is one that the rows call for.
pub proof fn plans_hold_what_is_called_for(
    editor: EditorModel,
    numbers: Map<Seq<char>, u32>,
    k: int,
)
    requires
        planned(editor, numbers).1 matches Some(plan) && 0 <= k < plan.len(),
    ensures
        called_for(editor, numbers, planned(editor, numbers).1->0[k]),
{
    plans_leave_protected_rows_alone(editor, numbers);
    let plan = planned(editor, numbers).1->0;
    assert(planned_for_editable(editor, numbers, plan[k]));
    if exists|i: int|
        0 <= i < editor.achievements.len() && !(#[trigger] editor.achievements[i]).protected()
            && editor.achievements[i].modified() && achievement_write(editor.achievements[i])
            == Some(plan[k]) {
        let i = choose|i: int|
            0 <= i < editor.achievements.len() && !(#[trigger] editor.achievements[i]).protected()
                && editor.achievements[i].modified() && achievement_write(editor.achievements[i])
                == Some(plan[k]);
        crate::schema::two_lowest_bits_protect(editor.achievements[i].permission);
        assert(editor.achievements[i].id == plan[k]->Achievement_id);
    } else {
        let i = choose|i: int|
            0 <= i < editor.stats.len() && !(#[trigger] editor.stats[i]).protected()
                && editor.stats[i].modified() && stat_write(editor.stats[i], numbers) == Some(
                plan[k],
            );
        verdicts_write_what_was_typed(editor.stats[i], numbers);
    }
}

/// A plan ticks or unticks every achievement that was edited and is not protected.
pub proof fn plans_hold_every_edited_achievement(
    editor: EditorModel,
    numbers: Map<Seq<char>, u32>,
    i: int,
)
    requires
        planned(editor, numbers).1 is Some,
        0 <= i < editor.achievements.len(),
        editor.achievements[i].current != editor.achievements[i].original,
        editor.achievements[i].permission as int % 4 == 0,
    ensures
        planned(editor, numbers).1->0.contains(
            WriteModel::Achievement {
                id: editor.achievements[i].id,
                unlocked: editor.achievements[i].current,
                label: editor.achievements[i].name,
            },
        ),
{
    crate::schema::two_lowest_bits_protect(editor.achievements[i].permission);
    plans_hold_every_edit(editor, numbers);
    let plan = planned(editor, numbers).1->0;
    assert(editor.achievements[i].modified());
    let k = choose|k: int|
        0 <= k < plan.len() && achievement_write(editor.achievements[i]) == Some(
            #[trigger] plan[k],
        );
    assert(plan[k] == (WriteModel::Achievement {
        id: editor.achievements[i].id,
        unlocked: editor.achievements[i].current,
        label: editor.achievements[i].name,
    }));
}

/// A plan sets every statistic whose text was edited to the number that was typed.
pub proof fn plans_hold_every_edited_stat(
    editor: EditorModel,
    numbers: Map<Seq<char>, u32>,
    i: int,
)
    requires
        planned(editor, numbers).1 is Some,
        0 <= i < editor.stats.len(),
        editor.stats[i].modified(),
    ensures
        ({
            let plan = planned(editor, numbers).1->0;
            let row = editor.stats[i];
            let typed = text::trimmed(row.text);
            match row.value {
                ValueModel::Integer { .. } => text::read_i32(typed) matches Some(value)
                    && plan.contains(
                    WriteModel::Integer { id: row.id, value: value as i32, label: row.display_name },
                ),
                ValueModel::Float { .. } => numbers.contains_key(typed) && plan.contains(
                    WriteModel::Float { id: row.id, bits: numbers[typed], label: row.display_name },
                ),
            }
        }),
{
    plans_hold_every_edit(editor, numbers);
    let plan = planned(editor, numbers).1->0;
    let row = editor.stats[i];
    assert(!(rows::verdict_on(row, numbers) is Problem));
    rows::problems_have_their_reasons(row, numbers);
    verdicts_write_what_was_typed(row, numbers);
    let k = choose|k: int|
        0 <= k < plan.len() && stat_write(editor.stats[i], numbers) == Some(#[trigger] plan[k]);
    assert(plan[k] == stat_write(row, numbers)->0);
}

/// Achievements are written before statistics.
pub proof fn achievements_are_written_first(
    editor: EditorModel,
    numbers: Map<Seq<char>, u32>,
    j: int,
    k: int,
)
    requires
        planned(editor, numbers).1 matches Some(plan) && 0 <= j < plan.len() && 0 <= k < plan.len()
            && plan[j] is Achievement && !(plan[k] is Achievement),
    ensures
        j < k,
{
    let first = achievement_writes(editor.achievements);
    let second = stat_writes(editor.stats, numbers);
    achievement_writes_are_achievements(editor.achievements);
    stat_writes_are_stats(editor.stats, numbers);
    let plan = planned(editor, numbers).1->0;
    if k < first.len() {
        assert(plan[k] == first[k]);
    }
    if j >= first.len() {
        assert(plan[j] == second[j - first.len()]);
    }
}

proof fn achievement_writes_are_achievements(list: Seq<RowModel>)
    ensures
        forall|k: int|
            0 <= k < achievement_writes(list).len() ==> (#[trigger] achievement_writes(list)[k])
                is Achievement,
        achievement_writes(list).len() <= modified_rows(list),
        (forall|i: int|
            0 <= i < list.len() && (#[trigger] list[i]).modified() ==> !list[i].protected())
            ==> achievement_writes(list).len() == modified_rows(list),
    decreases list.len(),
{
    if list.len() > 0 {
        let shorter = list.drop_last();
        achievement_writes_are_achievements(shorter);
        assert forall|i: int| 0 <= i < shorter.len() implies shorter[i] == #[trigger] list[i] by {}
        if forall|i: int|
            0 <= i < list.len() && (#[trigger] list[i]).modified() ==> !list[i].protected() {
            assert forall|i: int|
                0 <= i < shorter.len() && (#[trigger] shorter[i]).modified() implies !shorter[
                i].protected() by {
                assert(list[i] == shorter[i]);
            }
            assert(list[list.len() - 1] == list.last());
        }
    }
}

proof fn stat_writes_are_stats(list: Seq<StatRowModel>, numbers: Map<Seq<char>, u32>)
    ensures
        forall|k: int|
            0 <= k < stat_writes(list, numbers).len() ==> !((#[trigger] stat_writes(
                list,
                numbers,
            )[k]) is Achievement),
        stat_writes(list, numbers).len() <= modified_stats(list),
        !any_problem(list, numbers) ==> stat_writes(list, numbers).len() == modified_stats(list),
    decreases list.len(),
{
    if list.len() > 0 {
        let shorter = list.drop_last();
        stat_writes_are_stats(shorter, numbers);
        if !any_problem(list, numbers) {
            assert(!any_problem(shorter, numbers)) by {
                if any_problem(shorter, numbers) {
                    let i = choose|i: int|
                        0 <= i < shorter.len() && rows::verdict_on(#[trigger] shorter[i], numbers)
                            is Problem;
                    assert(rows::verdict_on(list[i], numbers) is Problem);
                }
            }
            assert(!(rows::verdict_on(list[list.len() - 1], numbers) is Problem));
        }
    }
}

/// A plan holds one change for each edit that is pending, where no protected achievement
/// was edited.
pub proof fn plans_are_as_long_as_the_edits(editor: EditorModel, numbers: Map<Seq<char>, u32>)
    requires
        forall|i: int|
            0 <= i < editor.achievements.len() && (#[trigger] editor.achievements[i]).modified()
                ==> !editor.achievements[i].protected(),
    ensures
        planned(editor, numbers).1 matches Some(plan) ==> plan.len() == pending(editor),
{
    achievement_writes_are_achievements(editor.achievements);
    stat_writes_are_stats(editor.stats, numbers);
}

/// There is a plan exactly where no statistic has a problem. Planning marks the statistics
/// that have one, takes earlier words back, and changes nothing else.
pub proof fn planning_marks_the_problems(
    editor: EditorModel,
    numbers: Map<Seq<char>, u32>,
)
    ensures
        ({
            let (after, plan) = planned(editor, numbers);
            &&& plan is None <==> exists|i: int|
                0 <= i < editor.stats.len() && rows::verdict_on(#[trigger] editor.stats[i], numbers)
                    is Problem
            &&& after.error is Some <==> plan is None
            &&& after.notice is None
            &&& after.stats.len() == editor.stats.len()
            &&& forall|i: int|
                0 <= i < editor.stats.len() ==> {
                    &&& (#[trigger] after.stats[i]) == StatRowModel {
                        problem: after.stats[i].problem,
                        ..editor.stats[i]
                    }
                    &&& after.stats[i].problem == match rows::verdict_on(editor.stats[i], numbers) {
                        VerdictModel::Problem { words } => Some(words),
                        _ => None,
                    }
                }
            &&& after == EditorModel {
                error: after.error,
                notice: None,
                stats: after.stats,
                ..editor
            }
        }),
{
}

/// The changes of a plan are handed to Steam one after another, from the first on, as long
/// as it accepts them; then it is asked to store them.
pub proof fn plans_are_carried_out_in_order(
    editor: EditorModel,
    plan: Seq<WriteModel>,
    replies: Seq<bool>,
)
    requires
        replies.len() <= plan.len() <= usize::MAX,
        forall|i: int| 0 <= i < replies.len() ==> #[trigger] replies[i],
        plan.len() > 0,
    ensures
        committed(editor, plan, replies).0 == editor,
        replies.len() < plan.len() ==> committed(editor, plan, replies).1 == (CommitStep::Write {
            index: replies.len() as usize,
        }),
        replies.len() == plan.len() ==> committed(editor, plan, replies).1 == CommitStep::Store,
{
    assert(replies.len() == plan.len() ==> replies.take(plan.len() as int) == replies);
    first_refusal_bounds(replies);
}

/// Once everything is set, Steam's answer to the store decides: the stats are requested
/// anew, or the user is told that nothing was saved.
pub proof fn the_store_decides(editor: EditorModel, plan: Seq<WriteModel>, replies: Seq<bool>)
    requires
        plan.len() > 0,
        replies.len() == plan.len() + 1,
        forall|i: int| 0 <= i < plan.len() ==> #[trigger] replies[i],
    ensures
        ({
            let (after, step) = committed(editor, plan, replies);
            let stored = replies[plan.len() as int];
            &&& stored ==> step == CommitStep::Reload && after.loading && after.error is None
            &&& !stored ==> step == CommitStep::Done && after.error is Some && after.loading
                == editor.loading
            &&& after.achievements == editor.achievements && after.stats == editor.stats
        }),
{
    let tried = replies.take(plan.len() as int);
    first_refusal_bounds(tried);
    if let Some(i) = first_refusal(tried) {
        assert(tried[i] == replies[i]);
    }
}

/// Where Steam refuses a change, the user is told which entry it was: the first that was
/// refused.
pub proof fn refusals_name_the_entry(
    editor: EditorModel,
    plan: Seq<WriteModel>,
    replies: Seq<bool>,
    i: int,
    label: Seq<char>,
)
    requires
        0 <= i < plan.len(),
        i < replies.len(),
        !replies[i],
        forall|j: int| 0 <= j < i ==> #[trigger] replies[j],
        label == match plan[i] {
            WriteModel::Achievement { label, .. } => label,
            WriteModel::Integer { label, .. } => label,
            WriteModel::Float { label, .. } => label,
        },
    ensures
        ({
            let (after, step) = committed(editor, plan, replies);
            &&& step == CommitStep::Done
            &&& after.error matches Some(words) && exists|a: Seq<char>, b: Seq<char>|
                words == #[trigger] (a + label + b)
            &&& after == EditorModel { error: after.error, ..editor }
        }),
{
    let tried = if replies.len() < plan.len() {
        replies
    } else {
        replies.take(plan.len() as int)
    };
    assert(tried[i] == replies[i]);
    first_refusal_bounds(tried);
    let upto = tried.take(i + 1);
    first_refusal_bounds(upto);
    assert(upto[i] == replies[i]);
    first_refusal_stays(tried, i + 1);
    let at = first_refusal(upto)->0;
    assert(upto[at] == replies[at]);
    assert(at == i);
    assert(committed(editor, plan, replies).0.error->0 == "Failed to set '"@ + label
        + "'. Nothing was stored."@);
}

/// Where there is nothing to store, nothing is, and the user is told so.
pub proof fn empty_plans_store_nothing(editor: EditorModel, replies: Seq<bool>)
    ensures
        ({
            let (after, step) = committed(editor, Seq::empty(), replies);
            &&& step == CommitStep::Done
            &&& after.notice is Some
            &&& after == EditorModel { notice: after.notice, ..editor }
        }),
{
    let none = Seq::<WriteModel>::empty();
    let tried = replies.take(0);
    assert(replies.len() >= none.len());
    assert(first_refusal(tried) is None);
}

/// Asking for the stats anew makes the editor wait, takes earlier words back, and keeps the
/// rows and everything else.
pub proof fn reloading_keeps_the_rows(editor: EditorModel)
    ensures
        ({
            let after = reloading(editor);
            &&& after.loading
            &&& after.error is None && after.notice is None
            &&& after == EditorModel {
                loading: true,
                error: None,
                notice: None,
                status: after.status,
                ..editor
            }
        }),
{
}

/// Ticking a box changes the state as edited and nothing else, and not even that where the
/// achievement is protected.
pub proof fn ticking_changes_one_thing(row: RowModel, checked: bool)
    ensures
        row.permission as int % 4 == 0 ==> set_to(row, checked).current == checked,
        row.permission as int % 4 != 0 ==> set_to(row, checked) == row,
        set_to(row, checked) == (RowModel { current: set_to(row, checked).current, ..row }),
        set_to(set_to(row, !checked), checked) == set_to(row, checked),
{
    crate::schema::two_lowest_bits_protect(row.permission);
}

/// Taking an edit back gives a row the state or the text that Steam reported, and keeps
/// the rest.
pub proof fn reverting_restores_what_was_reported(row: RowModel, stat: StatRowModel)
    ensures
        reverted(row).current == row.original,
        reverted(row) == (RowModel { current: row.original, ..row }),
        reverted_stat(stat).text == match stat.value {
            ValueModel::Integer { original } => text::signed_decimal(original as int),
            ValueModel::Float { shown, .. } => shown,
        },
        reverted_stat(stat).problem is None,
        reverted_stat(stat) == (StatRowModel {
            text: reverted_stat(stat).text,
            problem: None,
            ..stat
        }),
{
}

/// How many edits are pending: as many as there are achievements whose state was changed
/// and statistics whose text was. Each edit counts for one.
pub proof fn every_edit_counts(list: Seq<RowModel>, more: Seq<RowModel>, row: RowModel)
    ensures
        modified_rows(Seq::<RowModel>::empty()) == 0,
        modified_rows(list + more) == modified_rows(list) + modified_rows(more),
        modified_rows(list.push(row)) == modified_rows(list) + if row.current != row.original {
            1int
        } else {
            0
        },
    decreases more.len(),
{
    assert(list.push(row).drop_last() =~= list);
    if more.len() == 0 {
        assert(list + more =~= list);
    } else {
        every_edit_counts(list, more.drop_last(), row);
        assert((list + more).drop_last() =~= list + more.drop_last());
    }
}

/// Edited statistics are counted one by one as well, and both counts make up what is
/// pending.
pub proof fn every_edited_stat_counts(
    editor: EditorModel,
    list: Seq<StatRowModel>,
    more: Seq<StatRowModel>,
    row: StatRowModel,
)
    ensures
        pending(editor) == modified_rows(editor.achievements) + modified_stats(editor.stats),
        modified_stats(Seq::<StatRowModel>::empty()) == 0,
        modified_stats(list + more) == modified_stats(list) + modified_stats(more),
        modified_stats(list.push(row)) == modified_stats(list) + if text::trimmed(row.text)
            != rows::value_text(row.value) {
            1int
        } else {
            0
        },
    decreases more.len(),
{
    assert(list.push(row).drop_last() =~= list);
    if more.len() == 0 {
        assert(list + more =~= list);
    } else {
        every_edited_stat_counts(editor, list, more.drop_last(), row);
        assert((list + more).drop_last() =~= list + more.drop_last());
    }
}

/// Confirming the dialog resets what was ticked in it, cancelling closes it, and until
/// then it keeps what is ticked.
pub proof fn the_dialog_does_what_was_chosen(too: bool, input: DialogInput)
    ensures
        ({
            let stage = ResetStage::Confirming { achievements_too: too };
            let (after, reset) = after_dialog(stage, input);
            &&& input.cancelled ==> after == ResetStage::Idle && reset is None
            &&& !input.cancelled && input.confirmed ==> reset == Some(input.achievements_too)
                && after == stage
            &&& !input.cancelled && !input.confirmed ==> reset is None && after == (
            ResetStage::Confirming { achievements_too: input.achievements_too })
        }),
        after_dialog(ResetStage::Idle, input) == (ResetStage::Idle, None::<bool>),
{
}

/// The rows of statistics come in the order of the definitions as well.
pub proof fn stat_rows_follow_the_schema(
    first: Seq<StatModel>,
    second: Seq<StatModel>,
    replies: Seq<Option<ValueModel>>,
    more: Seq<Option<ValueModel>>,
)
    requires
        replies.len() == first.len(),
    ensures
        loaded_stats(first + second, replies + more) == loaded_stats(first, replies)
            + loaded_stats(second, more),
    decreases second.len(),
{
    let all = first + second;
    let given = replies + more;
    if second.len() > 0 {
        stat_rows_follow_the_schema(first, second.drop_last(), replies, more);
        assert(all.drop_last() =~= first + second.drop_last());
        assert(all.last() == second.last());
        let k = second.len() - 1;
        if k < more.len() {
            assert(given[first.len() + k] == more[k]);
        }
    } else {
        assert(all =~= first);
        earlier_values_count(first, replies, more);
    }
    assert(loaded_stats(all, given) =~= loaded_stats(first, replies) + loaded_stats(second, more));
}

proof fn earlier_values_count(
    defs: Seq<StatModel>,
    replies: Seq<Option<ValueModel>>,
    more: Seq<Option<ValueModel>>,
)
    requires
        defs.len() <= replies.len(),
    ensures
        loaded_stats(defs, replies + more) == loaded_stats(defs, replies),
    decreases defs.len(),
{
    if defs.len() > 0 {
        earlier_values_count(defs.drop_last(), replies, more);
        assert((replies + more)[defs.len() - 1] == replies[defs.len() - 1]);
    }
}

proof fn achievement_writes_of_a_sum(a: Seq<RowModel>, b: Seq<RowModel>)
    ensures
        achievement_writes(a + b) == achievement_writes(a) + achievement_writes(b),
    decreases b.len(),
{
    if b.len() > 0 {
        achievement_writes_of_a_sum(a, b.drop_last());
        assert((a + b).drop_last() =~= a + b.drop_last());
        assert((a + b).last() == b.last());
    } else {
        assert(a + b =~= a);
    }
    assert(achievement_writes(a + b) =~= achievement_writes(a) + achievement_writes(b));
}

proof fn stat_writes_of_a_sum(
    a: Seq<StatRowModel>,
    b: Seq<StatRowModel>,
    numbers: Map<Seq<char>, u32>,
)
    ensures
        stat_writes(a + b, numbers) == stat_writes(a, numbers) + stat_writes(b, numbers),
    decreases b.len(),
{
    if b.len() > 0 {
        stat_writes_of_a_sum(a, b.drop_last(), numbers);
        assert((a + b).drop_last() =~= a + b.drop_last());
        assert((a + b).last() == b.last());
    } else {
        assert(a + b =~= a);
    }
    assert(stat_writes(a + b, numbers) =~= stat_writes(a, numbers) + stat_writes(b, numbers));
}

/// A plan writes the rows in the order they stand in.
pub proof fn plans_follow_the_rows(
    editor: EditorModel,
    numbers: Map<Seq<char>, u32>,
    a: Seq<RowModel>,
    b: Seq<RowModel>,
    s: Seq<StatRowModel>,
    t: Seq<StatRowModel>,
)
    requires
        planned(EditorModel { achievements: a + b, stats: s + t, ..editor }, numbers).1 is Some,
    ensures
        ({
            let plan = |rows: Seq<RowModel>, stats: Seq<StatRowModel>|
                planned(EditorModel { achievements: rows, stats, ..editor }, numbers).1;
            &&& plan(a, seq![]) is Some && plan(b, seq![]) is Some
            &&& plan(seq![], s) is Some && plan(seq![], t) is Some
            &&& plan(a + b, s + t)->0 == plan(a, seq![])->0 + plan(b, seq![])->0 + plan(
                seq![],
                s,
            )->0 + plan(seq![], t)->0
        }),
{
    achievement_writes_of_a_sum(a, b);
    stat_writes_of_a_sum(s, t, numbers);
    let all = s + t;
    if any_problem(s, numbers) {
        let i = choose|i: int|
            0 <= i < s.len() && rows::verdict_on(#[trigger] s[i], numbers) is Problem;
        assert(rows::verdict_on(all[i], numbers) is Problem);
    }
    if any_problem(t, numbers) {
        let i = choose|i: int|
            0 <= i < t.len() && rows::verdict_on(#[trigger] t[i], numbers) is Problem;
        assert(rows::verdict_on(all[s.len() + i], numbers) is Problem);
    }
    let none = Seq::<StatRowModel>::empty();
    let nobody = Seq::<RowModel>::empty();
    assert(!any_problem(none, numbers));
    assert(achievement_writes(nobody).len() == 0 && stat_writes(none, numbers).len() == 0);
    let x = achievement_writes(a);
    let y = achievement_writes(b);
    let u = stat_writes(s, numbers);
    let v = stat_writes(t, numbers);
    let nothing = Seq::<WriteModel>::empty();
    assert(achievement_writes(nobody) =~= nothing && stat_writes(none, numbers) =~= nothing);
    assert((x + y) + (u + v) =~= (x + nothing) + (y + nothing) + (nothing + u) + (nothing + v));
}

/// What Steam's refusal came to is told: of stats that did not arrive in so many words, of
/// a store that was rejected within the words for that.
pub proof fn refusals_tell_the_result(
    editor: EditorModel,
    game_id: u64,
    result: i32,
    steam_id: u64,
)
    requires
        result != 1,
        game_id == 0 || game_id as nat % 0x1_0000_0000 == editor.app_id,
    ensures
        after_event(
            editor,
            CallbackEvent::UserStatsReceived { game_id, result, steam_id },
        ).0.error == Some(result_words(result)),
        after_event(
            editor,
            CallbackEvent::UserStatsStored { game_id, result },
        ).0.error matches Some(words) && exists|a: Seq<char>, b: Seq<char>|
            words == #[trigger] (a + result_words(result) + b),
{
    assert(after_event(editor, CallbackEvent::UserStatsStored { game_id, result }).0.error->0
        == "Steam rejected the store ("@ + result_words(result) + ")."@);
}

/// Every text that some row's verdict rests on is among those to read beforehand, row after
/// row.
pub proof fn the_texts_of_every_row_are_read(
    before: Seq<StatRowModel>,
    row: StatRowModel,
    after: Seq<StatRowModel>,
)
    ensures
        texts_to_read(before + seq![row] + after) == texts_to_read(before) + rows::texts_to_read(
            row,
        ) + texts_to_read(after),
        texts_to_read(Seq::empty()).len() == 0,
    decreases after.len(),
{
    let list = before + seq![row] + after;
    if after.len() == 0 {
        assert(list.drop_last() =~= before);
        assert(list.last() == row);
    } else {
        the_texts_of_every_row_are_read(before, row, after.drop_last());
        assert(list.drop_last() =~= before + seq![row] + after.drop_last());
        assert(list.last() == after.last());
    }
    assert(texts_to_read(list) =~= texts_to_read(before) + rows::texts_to_read(row) + texts_to_read(
        after,
    ));
}

} // verus!
