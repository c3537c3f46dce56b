//! What the editor's window shows.

use vstd::prelude::*;

use crate::calendar;
use crate::editor;
use crate::editor::{EditorApp, EditorModel, Filter};
use crate::library;
use crate::rows;
use crate::rows::{RowModel, StatRowModel, StatValue};
use crate::schema;
use crate::schema::AchievementModel;
use crate::text;

verus! {

/// An achievement that a filter lets through.
pub open spec fn passes(filter: Filter, row: RowModel) -> bool {
    match filter {
        Filter::All => true,
        Filter::Locked => !row.current,
        Filter::Unlocked => row.current,
    }
}

/// An achievement in which a text is found, whatever its case: in its name, its
/// description or its ID.
pub open spec fn found_in(row: RowModel, needle: Seq<char>) -> bool {
    ||| needle.len() == 0
    ||| text::occurs_in(text::lowered(row.name), needle)
    ||| text::occurs_in(text::lowered(row.description), needle)
    ||| text::occurs_in(text::lowered(row.id), needle)
}

/// What is searched for: without white space at its ends, in lower case.
pub open spec fn needle_of(search: Seq<char>) -> Seq<char> {
    text::lowered(text::trimmed(search))
}

/// An achievement that is shown.
pub open spec fn is_shown(editor: EditorModel, row: RowModel) -> bool {
    passes(editor.filter, row) && found_in(row, needle_of(editor.search))
}

/// What an achievement's line shows.
pub struct AchievementLine {
    /// The icon to show, if icons are shown and the game ships one.
    pub icon_url: Option<String>,
    /// Whether the box is ticked.
    pub checked: bool,
    /// Whether the box can be ticked.
    pub enabled: bool,
    /// Why it cannot, where it cannot.
    pub explanation: Option<&'static str>,
    pub title: String,
    /// Whether the title stands out as edited.
    pub modified: bool,
    pub protected: bool,
    pub hidden: bool,
    /// When the achievement was unlocked, where that is known.
    pub unlocked_at: Option<String>,
    /// The description, where there is one.
    pub description: Option<String>,
}

/// What an [`AchievementLine`] says.
pub struct LineModel {
    pub icon_url: Option<Seq<char>>,
    pub checked: bool,
    pub enabled: bool,
    pub explanation: Option<Seq<char>>,
    pub title: Seq<char>,
    pub modified: bool,
    pub protected: bool,
    pub hidden: bool,
    pub unlocked_at: Option<Seq<char>>,
    pub description: Option<Seq<char>>,
}

impl View for AchievementLine {
    type V = LineModel;

    open spec fn view(&self) -> LineModel {
        LineModel {
            icon_url: text::optional(self.icon_url),
            checked: self.checked,
            enabled: self.enabled,
            explanation: match self.explanation {
                Some(words) => Some(words@),
                None => None,
            },
            title: self.title@,
            modified: self.modified,
            protected: self.protected,
            hidden: self.hidden,
            unlocked_at: text::optional(self.unlocked_at),
            description: text::optional(self.description),
        }
    }
}

/// What an achievement's line shows. The icon goes by the state as edited, the
/// date by the state as Steam reports it.
pub open spec fn line_of(row: RowModel, app_id: u32, show_icons: bool) -> LineModel {
    let icon = if row.current {
        row.icon_unlocked
    } else {
        row.icon_locked
    };
    LineModel {
        icon_url: if show_icons && icon.len() > 0 {
            Some(library::community_url(app_id, icon))
        } else {
            None
        },
        checked: row.current,
        enabled: !row.protected(),
        explanation: if row.protected() {
            Some("Protected by the game's server. Steam will not accept changes."@)
        } else {
            None
        },
        title: row.name,
        modified: row.modified(),
        protected: row.protected(),
        hidden: row.hidden,
        unlocked_at: if row.original && row.unlock_time > 0 {
            Some(calendar::utc_text(row.unlock_time))
        } else {
            None
        },
        description: if row.description.len() > 0 {
            Some(row.description)
        } else {
            None
        },
    }
}

/// What is said of a statistic behind its value.
pub enum Remark {
    /// Nothing.
    Silent,
    /// What is wrong with what was typed.
    Problem { words: String },
    /// What the value was before it was edited.
    Edited { words: String },
}

/// What a [`Remark`] says.
pub enum RemarkModel {
    Silent,
    Problem { words: Seq<char> },
    Edited { words: Seq<char> },
}

impl View for Remark {
    type V = RemarkModel;

    open spec fn view(&self) -> RemarkModel {
        match *self {
            Remark::Silent => RemarkModel::Silent,
            Remark::Problem { words } => RemarkModel::Problem { words: words@ },
            Remark::Edited { words } => RemarkModel::Edited { words: words@ },
        }
    }
}

/// What a statistic's line shows.
pub struct StatLine {
    pub name: String,
    /// Shown while the pointer rests on the name.
    pub id: String,
    pub typed: String,
    /// Whether the value can be edited.
    pub enabled: bool,
    pub kind: &'static str,
    pub protected: bool,
    pub increment_only: bool,
    pub remark: Remark,
}

/// What a [`StatLine`] says.
pub struct StatLineModel {
    pub name: Seq<char>,
    pub id: Seq<char>,
    pub typed: Seq<char>,
    pub enabled: bool,
    pub kind: Seq<char>,
    pub protected: bool,
    pub increment_only: bool,
    pub remark: RemarkModel,
}

impl View for StatLine {
    type V = StatLineModel;

    open spec fn view(&self) -> StatLineModel {
        StatLineModel {
            name: self.name@,
            id: self.id@,
            typed: self.typed@,
            enabled: self.enabled,
            kind: self.kind@,
            protected: self.protected,
            increment_only: self.increment_only,
            remark: self.remark@,
        }
    }
}

/// What a statistic's line shows. Statistics often drive achievement progress
/// and anti-cheat checks, so they can be edited only once that was allowed.
pub open spec fn stat_line_of(row: StatRowModel, editable: bool) -> StatLineModel {
    StatLineModel {
        name: row.display_name,
        id: row.id,
        typed: row.text,
        enabled: editable && !row.protected(),
        kind: if row.value is Integer {
            "integer"@
        } else {
            "float"@
        },
        protected: row.protected(),
        increment_only: row.increment_only,
        remark: match row.problem {
            Some(words) => RemarkModel::Problem { words },
            None => if row.modified() {
                RemarkModel::Edited { words: "was "@ + rows::value_text(row.value) }
            } else {
                RemarkModel::Silent
            },
        },
    }
}

/// What the button that stores changes is called.
pub open spec fn store_words(pending: nat) -> Seq<char> {
    if pending > 0 {
        "Store ("@ + text::decimal(pending) + ")"@
    } else {
        "Store"@
    }
}

/// What is said of downloads that are under way, if any are.
pub open spec fn download_words(outstanding: nat, what: Seq<char>) -> Option<Seq<char>> {
    if outstanding > 0 {
        Some("Downloading "@ + text::decimal(outstanding) + " "@ + what + "..."@)
    } else {
        None
    }
}

/// What is said of downloads that are under way, if any are.
pub fn download_text(outstanding: usize, what: &str) -> (r: Option<String>)
    ensures
        match download_words(outstanding as nat, what@) {
            Some(words) => r matches Some(s) && s@ == words,
            None => r is None,
        },
{
    if outstanding == 0 {
        return None;
    }
    let mut s = "Downloading ".to_owned();
    text::push_decimal(&mut s, outstanding as u64);
    s.append(" ");
    s.append(what);
    s.append("...");
    Some(s)
}

/// What the button that resets everything is called.
pub fn reset_label(achievements_too: bool) -> (r: &'static str)
    ensures
        r@ == if achievements_too {
            "Reset stats and achievements"@
        } else {
            "Reset stats"@
        },
{
    if achievements_too {
        "Reset stats and achievements"
    } else {
        "Reset stats"
    }
}

impl EditorApp {
    fn shows(&self, index: usize, needle: &str) -> (r: bool)
        requires
            index < self@.achievements.len(),
        ensures
            r == (passes(self@.filter, self@.achievements[index as int]) && found_in(
                self@.achievements[index as int],
                needle@,
            )),
    {
        let row = &self.achievements[index];
        let by_filter = match self.filter {
            Filter::All => true,
            Filter::Locked => !row.current,
            Filter::Unlocked => row.current,
        };
        if !by_filter {
            return false;
        }
        if needle.is_empty() {
            return true;
        }
        text::contains(text::to_lowercase(row.name.as_str()).as_str(), needle) || text::contains(
            text::to_lowercase(row.description.as_str()).as_str(),
            needle,
        ) || text::contains(text::to_lowercase(row.id.as_str()).as_str(), needle)
    }

    /// Where the achievements stand that are shown, in order.
    pub fn visible_achievements(&self) -> (r: Vec<usize>)
        ensures
            forall|i: int, j: int| 0 <= i < j < r@.len() ==> r@[i] < r@[j],
            forall|k: usize|
                r@.contains(k) <==> k < self@.achievements.len() && is_shown(
                    self@,
                    self@.achievements[k as int],
                ),
    {
        let needle = text::to_lowercase(text::trim(self.search.as_str()).as_str());
        let mut r: Vec<usize> = Vec::new();
        for i in 0..self.achievements.len()
            invariant
                needle@ == needle_of(self@.search),
                self@.achievements.len() == self.achievements@.len(),
                forall|a: int, b: int| 0 <= a < b < r@.len() ==> r@[a] < r@[b],
                forall|a: int| 0 <= a < r@.len() ==> r@[a] < i,
                forall|k: usize|
                    r@.contains(k) <==> k < i && is_shown(self@, self@.achievements[k as int]),
        {
            let ghost was = r@;
            if self.shows(i, needle.as_str()) {
                r.push(i);
                assert forall|k: usize| r@.contains(k) <==> k < i + 1 && is_shown(
                    self@,
                    self@.achievements[k as int],
                ) by {
                    if was.contains(k) {
                        let a = was.index_of(k);
                        assert(r@[a] == k);
                    }
                    assert(r@[was.len() as int] == i);
                    if r@.contains(k) && k != i {
                        let a = r@.index_of(k);
                        assert(was[a] == k);
                    }
                }
            }
        }
        r
    }

    /// What to say in place of the achievements, where none is shown.
    pub fn achievements_message(&self, visible: usize) -> (r: Option<&'static str>)
        ensures
            if visible > 0 {
                r is None
            } else if self@.achievements.len() == 0 {
                r matches Some(s) && s@ == "This game reports no achievements."@
            } else {
                r matches Some(s) && s@ == "No achievements match the current filter."@
            },
    {
        if visible > 0 {
            None
        } else if self.achievements.len() == 0 {
            Some("This game reports no achievements.")
        } else {
            Some("No achievements match the current filter.")
        }
    }

    /// What to say in place of the statistics, where there are none.
    pub fn statistics_message(&self) -> (r: Option<&'static str>)
        ensures
            if self@.stats.len() == 0 {
                r matches Some(s) && s@ == "This game reports no statistics."@
            } else {
                r is None
            },
    {
        if self.stats.len() == 0 {
            Some("This game reports no statistics.")
        } else {
            None
        }
    }

    /// What to say in place of everything, until stats have arrived once.
    pub fn waiting_message(&self) -> (r: Option<&'static str>)
        ensures
            if self@.loading && !self@.loaded_once {
                r matches Some(s) && s@ == "Waiting for Steam to send this game's stats..."@
            } else {
                r is None
            },
    {
        if self.loading && !self.loaded_once {
            Some("Waiting for Steam to send this game's stats...")
        } else {
            None
        }
    }

    /// What an achievement's line shows.
    pub fn achievement_line(&self, index: usize) -> (r: AchievementLine)
        requires
            index < self@.achievements.len(),
        ensures
            r@ == line_of(
                self@.achievements[index as int],
                self@.app_id,
                self@.show_icons,
            ),
    {
        let row = &self.achievements[index];
        let icon = if row.current {
            row.icon_unlocked.as_str()
        } else {
            row.icon_locked.as_str()
        };
        let protected = row.is_protected();
        AchievementLine {
            icon_url: if self.show_icons && !icon.is_empty() {
                Some(library::community_asset_url(self.app_id, icon))
            } else {
                None
            },
            checked: row.current,
            enabled: !protected,
            explanation: if protected {
                Some("Protected by the game's server. Steam will not accept changes.")
            } else {
                None
            },
            title: row.name.clone(),
            modified: row.is_modified(),
            protected,
            hidden: row.hidden,
            unlocked_at: if row.original && row.unlock_time > 0 {
                Some(calendar::format_unix_utc(row.unlock_time))
            } else {
                None
            },
            description: if row.description.as_str().is_empty() {
                None
            } else {
                Some(row.description.clone())
            },
        }
    }

    /// What a statistic's line shows.
    pub fn stat_line(&self, index: usize) -> (r: StatLine)
        requires
            index < self@.stats.len(),
        ensures
            r@ == stat_line_of(self@.stats[index as int], self@.allow_stat_edits),
    {
        let row = &self.stats[index];
        let protected = row.is_protected();
        StatLine {
            name: row.display_name.clone(),
            id: row.id.clone(),
            typed: row.text.clone(),
            enabled: self.allow_stat_edits && !protected,
            kind: match &row.value {
                StatValue::Integer { .. } => "integer",
                StatValue::Float { .. } => "float",
            },
            protected,
            increment_only: row.increment_only,
            remark: match &row.problem {
                Some(words) => Remark::Problem { words: words.clone() },
                None => if row.is_modified() {
                    let mut words = "was ".to_owned();
                    words.append(row.original_text().as_str());
                    Remark::Edited { words }
                } else {
                    Remark::Silent
                },
            },
        }
    }

    /// What the button that stores changes is called, and whether it can be
    /// pressed.
    pub fn store_button(&self) -> (r: (String, bool))
        ensures
            r.0@ == store_words(editor::counted(editor::pending(self@))),
            r.1 == (!self@.loading && editor::pending(self@) > 0),
    {
        let pending = self.pending_changes();
        let label = if pending > 0 {
            let mut s = "Store (".to_owned();
            text::push_decimal(&mut s, pending as u64);
            s.append(")");
            s
        } else {
            "Store".to_owned()
        };
        (label, !self.loading && pending > 0)
    }

    /// Whether to draw again soon, given whether pictures have changed and how
    /// many are on their way.
    pub fn needs_repaint(&self, pictures_changed: bool, outstanding: usize) -> (r: bool)
        ensures
            r == (pictures_changed || self@.loading || outstanding > 0),
    {
        pictures_changed || self.loading || outstanding > 0
    }
}

/// Statistics cannot be edited unless that was allowed, and protected entries
/// never.
pub proof fn protected_entries_are_read_only(row: RowModel, stat: StatRowModel, app_id: u32)
    ensures
        row.protected() ==> !line_of(row, app_id, true).enabled && !line_of(
            row,
            app_id,
            false,
        ).enabled,
        stat.protected() ==> !stat_line_of(stat, true).enabled,
        !stat_line_of(stat, false).enabled,
{
}

/// An achievement that the filter lets through is shown where the text that is searched
/// for stands anywhere in its name, its description or its ID, whatever the case of
/// either and whatever white space is typed around it.
pub proof fn searches_find_texts_anywhere(
    editor: EditorModel,
    row: RowModel,
    front: Seq<char>,
    words: Seq<char>,
    back: Seq<char>,
    a: Seq<char>,
    b: Seq<char>,
)
    requires
        editor.search == front + words + back,
        forall|i: int| 0 <= i < front.len() ==> text::is_white(#[trigger] front[i]),
        forall|i: int| 0 <= i < back.len() ==> text::is_white(#[trigger] back[i]),
        words.len() > 0 ==> !text::is_white(words[0]) && !text::is_white(words[words.len() - 1]),
        editor.filter == Filter::Locked ==> !row.current,
        editor.filter == Filter::Unlocked ==> row.current,
        ({
            ||| text::lowered(row.name) == a + text::lowered(words) + b
            ||| text::lowered(row.description) == a + text::lowered(words) + b
            ||| text::lowered(row.id) == a + text::lowered(words) + b
        }),
    ensures
        is_shown(editor, row),
{
    text::white_space_at_the_ends_is_cut(front, words, back);
    let needle = text::lowered(words);
    text::occurring_is_standing_between(text::lowered(row.name), needle);
    text::occurring_is_standing_between(text::lowered(row.description), needle);
    text::occurring_is_standing_between(text::lowered(row.id), needle);
}

/// An achievement that is shown is one that the filter lets through, and the text that
/// is searched for stands in its name, its description or its ID.
pub proof fn only_what_is_searched_for_is_shown(
    editor: EditorModel,
    row: RowModel,
    front: Seq<char>,
    words: Seq<char>,
    back: Seq<char>,
)
    requires
        is_shown(editor, row),
        editor.search == front + words + back,
        forall|i: int| 0 <= i < front.len() ==> text::is_white(#[trigger] front[i]),
        forall|i: int| 0 <= i < back.len() ==> text::is_white(#[trigger] back[i]),
        words.len() > 0 ==> !text::is_white(words[0]) && !text::is_white(words[words.len() - 1]),
    ensures
        editor.filter == Filter::Locked ==> !row.current,
        editor.filter == Filter::Unlocked ==> row.current,
        text::lowered(words).len() > 0 ==> exists|a: Seq<char>, b: Seq<char>|
            {
                let found = #[trigger] (a + text::lowered(words) + b);
                ||| text::lowered(row.name) == found
                ||| text::lowered(row.description) == found
                ||| text::lowered(row.id) == found
            },
{
    text::white_space_at_the_ends_is_cut(front, words, back);
    let needle = text::lowered(words);
    text::occurring_is_standing_between(text::lowered(row.name), needle);
    text::occurring_is_standing_between(text::lowered(row.description), needle);
    text::occurring_is_standing_between(text::lowered(row.id), needle);
}

/// While nothing is searched for, an achievement is shown exactly where the filter lets
/// it through.
pub proof fn an_empty_search_shows_everything(editor: EditorModel, row: RowModel)
    requires
        forall|i: int|
            0 <= i < editor.search.len() ==> text::is_white(#[trigger] editor.search[i]),
    ensures
        is_shown(editor, row) <==> {
            ||| editor.filter == Filter::All
            ||| editor.filter == Filter::Locked && !row.current
            ||| editor.filter == Filter::Unlocked && row.current
        },
{
    let none = Seq::<char>::empty();
    assert(editor.search =~= editor.search + none + none);
    text::white_space_at_the_ends_is_cut(editor.search, none, none);
    assert(text::lowered(none) =~= none);
}

/// The icon that an achievement's line shows is the one that the schema gives for the
/// state that is ticked, whatever Steam reported.
pub proof fn lines_show_the_icon_of_the_state(
    def: AchievementModel,
    unlocked: bool,
    unlock_time: u32,
    ticked: bool,
    app_id: u32,
)
    ensures
        ({
            let row = RowModel { current: ticked, ..rows::row_of(def, unlocked, unlock_time) };
            let line = line_of(row, app_id, true);
            let icon = if ticked || def.icon_locked.len() == 0 {
                def.icon_normal
            } else {
                def.icon_locked
            };
            &&& icon == schema::chosen_icon(ticked, def.icon_normal, def.icon_locked)
            &&& icon.len() > 0 ==> line.icon_url == Some(library::community_url(app_id, icon))
            &&& icon.len() == 0 ==> line.icon_url is None
            &&& line_of(row, app_id, false).icon_url is None
        }),
{
}

/// An achievement's line shows the row as it stands: its box is ticked as edited, and
/// can be ticked unless the achievement is protected, which is explained.
pub proof fn lines_show_the_row(row: RowModel, app_id: u32, show_icons: bool)
    ensures
        ({
            let line = line_of(row, app_id, show_icons);
            &&& line.checked == row.current
            &&& line.title == row.name
            &&& line.enabled <==> row.permission as int % 4 == 0
            &&& line.protected <==> row.permission as int % 4 != 0
            &&& line.explanation is Some <==> row.permission as int % 4 != 0
            &&& line.modified <==> row.current != row.original
            &&& line.hidden == row.hidden
            &&& row.description.len() > 0 ==> line.description == Some(row.description)
            &&& row.description.len() == 0 ==> line.description is None
        }),
{
    schema::two_lowest_bits_protect(row.permission);
}

/// A line tells when an achievement was unlocked where Steam reports it as unlocked and
/// knows when, and goes on telling it while the box is unticked.
pub proof fn lines_tell_when(row: RowModel, app_id: u32, show_icons: bool)
    ensures
        row.original && row.unlock_time > 0 ==> line_of(row, app_id, show_icons).unlocked_at
            == Some(calendar::utc_text(row.unlock_time)),
        !row.original || row.unlock_time == 0 ==> line_of(row, app_id, show_icons).unlocked_at
            is None,
{
}

/// A statistic's line shows the row as it stands. It can be edited where that was
/// allowed and the statistic is not protected, and says what is wrong with an edit, or
/// else what the value was before it.
pub proof fn stat_lines_show_the_row(row: StatRowModel, editable: bool)
    ensures
        ({
            let line = stat_line_of(row, editable);
            &&& line.name == row.display_name
            &&& line.id == row.id
            &&& line.typed == row.text
            &&& line.enabled <==> editable && row.permission as int % 4 == 0
            &&& line.protected <==> row.permission as int % 4 != 0
            &&& line.increment_only == row.increment_only
            &&& row.value is Integer ==> line.kind == "integer"@
            &&& row.value is Float ==> line.kind == "float"@
            &&& row.problem matches Some(words) ==> line.remark == (RemarkModel::Problem { words })
            &&& row.problem is None && !row.modified() ==> line.remark is Silent
            &&& row.problem is None && row.modified() ==> {
                &&& row.value matches rows::ValueModel::Integer { original } ==> line.remark == (
                RemarkModel::Edited { words: "was "@ + text::signed_decimal(original as int) })
                &&& row.value matches rows::ValueModel::Float { shown, .. } ==> line.remark == (
                RemarkModel::Edited { words: "was "@ + shown })
            }
        }),
{
    schema::two_lowest_bits_protect(row.permission);
}

/// What is said of a number of things tells the number, and nothing is said of none.
pub proof fn counts_are_told(count: nat, what: Seq<char>)
    ensures
        download_words(0, what) is None,
        count > 0 ==> (download_words(count, what) matches Some(words) && exists|
            a: Seq<char>,
            b: Seq<char>,
            c: Seq<char>,
        |
            words == #[trigger] (a + text::decimal(count) + b + what + c)),
        count > 0 ==> exists|a: Seq<char>, b: Seq<char>|
            store_words(count) == #[trigger] (a + text::decimal(count) + b),
        store_words(0) == "Store"@,
{
    if count > 0 {
        let d = text::decimal(count);
        assert(download_words(count, what)->0 == "Downloading "@ + d + " "@ + what + "..."@);
        assert(store_words(count) == "Store ("@ + d + ")"@);
    }
}

} // verus!
