//! The rows of the editor: one for each achievement and each statistic.

use vstd::prelude::*;

use crate::float;
use crate::float::{FloatModel, FloatNumbers, FloatValue};
use crate::schema;
use crate::schema::{
    AchievementDefinition, AchievementModel, BoundsModel, StatBounds, StatDefinition, StatModel,
};
use crate::text;

verus! {

/// One achievement in the editor.
#[derive(Debug, PartialEq)]
pub struct AchievementRow {
    pub id: String,
    pub name: String,
    pub description: String,
    pub icon_unlocked: String,
    pub icon_locked: String,
    pub permission: i32,
    pub hidden: bool,
    /// State as Steam reports it.
    pub original: bool,
    /// State as edited in the UI.
    pub current: bool,
    pub unlock_time: u32,
}

/// What an [`AchievementRow`] says.
pub struct RowModel {
    pub id: Seq<char>,
    pub name: Seq<char>,
    pub description: Seq<char>,
    pub icon_unlocked: Seq<char>,
    pub icon_locked: Seq<char>,
    pub permission: i32,
    pub hidden: bool,
    pub original: bool,
    pub current: bool,
    pub unlock_time: u32,
}

impl View for AchievementRow {
    type V = RowModel;

    open spec fn view(&self) -> RowModel {
        RowModel {
            id: self.id@,
            name: self.name@,
            description: self.description@,
            icon_unlocked: self.icon_unlocked@,
            icon_locked: self.icon_locked@,
            permission: self.permission,
            hidden: self.hidden,
            original: self.original,
            current: self.current,
            unlock_time: self.unlock_time,
        }
    }
}

impl RowModel {
    /// The row was edited.
    pub open spec fn modified(self) -> bool {
        self.current != self.original
    }

    /// The row cannot be edited.
    pub open spec fn protected(self) -> bool {
        schema::protects(self.permission)
    }
}

impl AchievementRow {
    /// Whether the row was edited.
    pub fn is_modified(&self) -> (r: bool)
        ensures
            r == self@.modified(),
    {
        self.current != self.original
    }

    /// Whether the row cannot be edited.
    pub fn is_protected(&self) -> (r: bool)
        ensures
            r == self@.protected(),
    {
        schema::is_protected(self.permission)
    }
}

/// The row of an achievement of which Steam reports whether it is unlocked, and
/// since when. An unresolved localisation token is no name; the ID is more
/// useful. A game that ships no greyed-out icon shows the other one.
pub open spec fn row_of(def: AchievementModel, unlocked: bool, unlock_time: u32) -> RowModel {
    RowModel {
        id: def.id,
        name: if def.name.len() == 0 || def.name[0] == '#' {
            def.id
        } else {
            def.name
        },
        description: def.description,
        icon_unlocked: def.icon_normal,
        icon_locked: if def.icon_locked.len() == 0 {
            def.icon_normal
        } else {
            def.icon_locked
        },
        permission: def.permission,
        hidden: def.hidden,
        original: unlocked,
        current: unlocked,
        unlock_time,
    }
}

/// The row of an achievement, given what Steam reports of it.
pub fn achievement_row(def: &AchievementDefinition, unlocked: bool, unlock_time: u32) -> (r:
    AchievementRow)
    ensures
        r@ == row_of(def@, unlocked, unlock_time),
{
    let token = text::starts_with(def.name.as_str(), "#");
    proof {
        reveal_strlit("#");
        if def.name@.len() > 0 {
            assert(def.name@.subrange(0, 1)[0] == def.name@[0]);
            if def.name@[0] == '#' {
                assert(def.name@.subrange(0, 1) =~= "#"@);
            } else {
                assert("#"@[0] == '#');
            }
        }
    }
    AchievementRow {
        id: def.id.clone(),
        name: if token || def.name.as_str().is_empty() {
            def.id.clone()
        } else {
            def.name.clone()
        },
        description: def.description.clone(),
        icon_unlocked: def.icon_normal.clone(),
        icon_locked: if def.icon_locked.as_str().is_empty() {
            def.icon_normal.clone()
        } else {
            def.icon_locked.clone()
        },
        permission: def.permission,
        hidden: def.hidden,
        original: unlocked,
        current: unlocked,
        unlock_time,
    }
}

/// What Steam reports of a statistic. A real number comes with its decimal text.
#[derive(Debug, PartialEq)]
#[allow(inconsistent_fields)]
pub enum StatValue {
    Integer { original: i32 },
    Float { original: u32, shown: String },
}

/// What a [`StatValue`] says.
#[allow(inconsistent_fields)]
pub enum ValueModel {
    Integer { original: i32 },
    Float { original: u32, shown: Seq<char> },
}

impl View for StatValue {
    type V = ValueModel;

    open spec fn view(&self) -> ValueModel {
        match *self {
            StatValue::Integer { original } => ValueModel::Integer { original },
            StatValue::Float { original, shown } => ValueModel::Float { original, shown: shown@ },
        }
    }
}

impl Clone for StatValue {
    fn clone(&self) -> (r: Self)
        ensures
            r@ == self@,
    {
        match self {
            StatValue::Integer { original } => StatValue::Integer { original: *original },
            StatValue::Float { original, shown } => StatValue::Float {
                original: *original,
                shown: shown.clone(),
            },
        }
    }
}

/// The decimal text of a value.
pub open spec fn value_text(value: ValueModel) -> Seq<char> {
    match value {
        ValueModel::Integer { original } => text::signed_decimal(original as int),
        ValueModel::Float { shown, .. } => shown,
    }
}

/// One statistic in the editor.
#[derive(Debug, PartialEq)]
pub struct StatRow {
    pub id: String,
    pub display_name: String,
    pub value: StatValue,
    /// The limits that the schema sets.
    pub bounds: StatBounds,
    /// Free text, so a half-typed number does not clobber the stat.
    pub text: String,
    pub permission: i32,
    pub increment_only: bool,
    /// Set when `text` cannot be parsed or violates the schema bounds.
    pub problem: Option<String>,
}

/// What a [`StatRow`] says.
pub struct StatRowModel {
    pub id: Seq<char>,
    pub display_name: Seq<char>,
    pub value: ValueModel,
    pub bounds: BoundsModel,
    pub text: Seq<char>,
    pub permission: i32,
    pub increment_only: bool,
    pub problem: Option<Seq<char>>,
}

impl View for StatRow {
    type V = StatRowModel;

    open spec fn view(&self) -> StatRowModel {
        StatRowModel {
            id: self.id@,
            display_name: self.display_name@,
            value: self.value@,
            bounds: self.bounds@,
            text: self.text@,
            permission: self.permission,
            increment_only: self.increment_only,
            problem: text::optional(self.problem),
        }
    }
}

impl StatRowModel {
    /// The row cannot be edited.
    pub open spec fn protected(self) -> bool {
        schema::protects(self.permission)
    }

    /// The row was edited.
    pub open spec fn modified(self) -> bool {
        text::trimmed(self.text) != value_text(self.value)
    }
}

impl StatRow {
    /// Whether the row cannot be edited.
    pub fn is_protected(&self) -> (r: bool)
        ensures
            r == self@.protected(),
    {
        schema::is_protected(self.permission)
    }

    /// The text of the value that Steam reports.
    pub fn original_text(&self) -> (r: String)
        ensures
            r@ == value_text(self@.value),
    {
        match &self.value {
            StatValue::Integer { original } => text::signed_text(*original),
            StatValue::Float { shown, .. } => shown.clone(),
        }
    }

    /// Whether the row was edited.
    pub fn is_modified(&self) -> (r: bool)
        ensures
            r == self@.modified(),
    {
        let now = text::trim(self.text.as_str());
        !text::same_text(now.as_str(), self.original_text().as_str())
    }
}

/// The row of a statistic of which Steam reports a value; none where the value
/// is of another type than the schema says.
pub open spec fn stat_row_of(def: StatModel, value: ValueModel) -> Option<StatRowModel> {
    if (def.bounds is Integer) == (value is Integer) {
        Some(
            StatRowModel {
                id: def.id,
                display_name: def.display_name,
                value,
                bounds: def.bounds,
                text: value_text(value),
                permission: def.permission,
                increment_only: def.increment_only,
                problem: None,
            },
        )
    } else {
        None
    }
}

/// The row of a statistic, given the value that Steam reports.
pub fn stat_row(def: &StatDefinition, value: &StatValue) -> (r: Option<StatRow>)
    ensures
        match stat_row_of(def@, value@) {
            Some(row) => r matches Some(s) && s@ == row,
            None => r is None,
        },
{
    let shown = match (&def.bounds, value) {
        (StatBounds::Integer { .. }, StatValue::Integer { original }) => text::signed_text(
            *original,
        ),
        (StatBounds::Float { .. }, StatValue::Float { shown, .. }) => shown.clone(),
        _ => {
            return None;
        },
    };
    Some(
        StatRow {
            id: def.id.clone(),
            display_name: def.display_name.clone(),
            value: value.clone(),
            bounds: def.bounds.clone(),
            text: shown,
            permission: def.permission,
            increment_only: def.increment_only,
            problem: None,
        },
    )
}

/// What to do about a statistic's row when changes are stored.
#[derive(Debug, PartialEq)]
pub enum Verdict {
    /// The row was not edited.
    Unchanged,
    /// The edit cannot be applied.
    Problem { words: &'static str },
    /// This whole number is to be written.
    Integer { value: i32 },
    /// This real number is to be written.
    Float { bits: u32 },
}

/// What a [`Verdict`] says.
pub enum VerdictModel {
    Unchanged,
    Problem { words: Seq<char> },
    Integer { value: i32 },
    Float { bits: u32 },
}

impl View for Verdict {
    type V = VerdictModel;

    open spec fn view(&self) -> VerdictModel {
        match *self {
            Verdict::Unchanged => VerdictModel::Unchanged,
            Verdict::Problem { words } => VerdictModel::Problem { words: words@ },
            Verdict::Integer { value } => VerdictModel::Integer { value },
            Verdict::Float { bits } => VerdictModel::Float { bits },
        }
    }
}

/// A whole number that the bounds of a statistic allow.
pub open spec fn allows_integer(bounds: BoundsModel, value: int) -> bool {
    match bounds {
        BoundsModel::Integer { min, max, .. } => !(value < min || max < value),
        _ => true,
    }
}

/// A real number that the bounds of a statistic allow. `numbers` are those that
/// texts denote, the texts of the bounds among them.
pub open spec fn allows_float(
    bounds: BoundsModel,
    bits: u32,
    numbers: Map<Seq<char>, u32>,
) -> bool {
    match bounds {
        BoundsModel::Float { min, max, .. } => !(float::less(bits, float::resolved(min, numbers))
            || float::less(float::resolved(max, numbers), bits)),
        _ => true,
    }
}

/// What to do about a row: nothing where it was not edited, nothing where it is
/// protected, and else to write the number that its text denotes, unless it
/// denotes none, is less than a statistic that only ever grows, or lies outside
/// the bounds that the schema sets.
pub open spec fn verdict_on(row: StatRowModel, numbers: Map<Seq<char>, u32>) -> VerdictModel {
    let typed = text::trimmed(row.text);
    if !row.modified() {
        VerdictModel::Unchanged
    } else if row.protected() {
        VerdictModel::Problem { words: "protected"@ }
    } else {
        match row.value {
            ValueModel::Integer { original } => match text::read_i32(typed) {
                Some(value) => if row.increment_only && value < original {
                    VerdictModel::Problem { words: "increment only"@ }
                } else if !allows_integer(row.bounds, value) {
                    VerdictModel::Problem { words: "out of bounds"@ }
                } else {
                    VerdictModel::Integer { value: value as i32 }
                },
                None => VerdictModel::Problem { words: "not a whole number"@ },
            },
            ValueModel::Float { original, .. } => match float::number_of(numbers, typed) {
                Some(bits) => if row.increment_only && float::less(bits, original) {
                    VerdictModel::Problem { words: "increment only"@ }
                } else if !allows_float(row.bounds, bits, numbers) {
                    VerdictModel::Problem { words: "out of bounds"@ }
                } else {
                    VerdictModel::Float { bits }
                },
                None => VerdictModel::Problem { words: "not a number"@ },
            },
        }
    }
}

/// The text of a real number that a document gives as text.
pub open spec fn written_out(value: FloatModel) -> Seq<Seq<char>> {
    match value {
        FloatModel::Bits(_) => Seq::empty(),
        FloatModel::Text { text, .. } => seq![text],
    }
}

/// The texts to read as real numbers before a row is judged, which are what was
/// typed and the bounds that the schema gives as text.
pub open spec fn texts_to_read(row: StatRowModel) -> Seq<Seq<char>> {
    (if row.value is Float {
        seq![text::trimmed(row.text)]
    } else {
        Seq::empty()
    }) + match row.bounds {
        BoundsModel::Integer { .. } => Seq::empty(),
        BoundsModel::Float { min, max, .. } => written_out(min) + written_out(max),
    }
}

fn push_written_out(out: &mut Vec<String>, value: &FloatValue)
    ensures
        text::texts_of(final(out)@) == text::texts_of(old(out)@) + written_out(value@),
{
    let ghost was = text::texts_of(out@);
    if let FloatValue::Text { text, .. } = value {
        out.push(text.clone());
    }
    assert(text::texts_of(out@) =~= was + written_out(value@));
}

impl StatRow {
    /// The texts to read as real numbers before the row is judged.
    pub fn float_texts(&self) -> (r: Vec<String>)
        ensures
            text::texts_of(r@) == texts_to_read(self@),
    {
        let mut r: Vec<String> = Vec::new();
        if let StatValue::Float { .. } = &self.value {
            r.push(text::trim(self.text.as_str()));
        }
        let ghost own = text::texts_of(r@);
        if let StatBounds::Float { min, max, .. } = &self.bounds {
            push_written_out(&mut r, min);
            push_written_out(&mut r, max);
        }
        assert(text::texts_of(r@) =~= texts_to_read(self@));
        r
    }

    fn allows_integer(&self, value: i32) -> (r: bool)
        ensures
            r == allows_integer(self@.bounds, value as int),
    {
        match &self.bounds {
            StatBounds::Integer { min, max, .. } => !(value < *min || *max < value),
            _ => true,
        }
    }

    fn allows_float(&self, bits: u32, numbers: &FloatNumbers) -> (r: bool)
        ensures
            r == allows_float(self@.bounds, bits, numbers@),
    {
        match &self.bounds {
            StatBounds::Float { min, max, .. } => !(float::is_less(bits, min.number(numbers))
                || float::is_less(max.number(numbers), bits)),
            _ => true,
        }
    }

    /// What to do about the row when changes are stored. `numbers` holds the
    /// real numbers that typed texts and the texts of bounds denote.
    pub fn verdict(&self, numbers: &FloatNumbers) -> (r: Verdict)
        ensures
            r@ == verdict_on(self@, numbers@),
    {
        if !self.is_modified() {
            return Verdict::Unchanged;
        }
        if self.is_protected() {
            return Verdict::Problem { words: "protected" };
        }
        let typed = text::trim(self.text.as_str());
        match &self.value {
            StatValue::Integer { original } => match text::parse_i32(typed.as_str()) {
                Some(value) => if self.increment_only && value < *original {
                    Verdict::Problem { words: "increment only" }
                } else if !self.allows_integer(value) {
                    Verdict::Problem { words: "out of bounds" }
                } else {
                    Verdict::Integer { value }
                },
                None => Verdict::Problem { words: "not a whole number" },
            },
            StatValue::Float { original, .. } => match numbers.number(typed.as_str()) {
                Some(bits) => if self.increment_only && float::is_less(bits, *original) {
                    Verdict::Problem { words: "increment only" }
                } else if !self.allows_float(bits, numbers) {
                    Verdict::Problem { words: "out of bounds" }
                } else {
                    Verdict::Float { bits }
                },
                None => Verdict::Problem { words: "not a number" },
            },
        }
    }
}

/// A protected statistic is never written, and one that only grows is never
/// written with a lesser value.
pub proof fn guarded_stats_are_not_written(row: StatRowModel, numbers: Map<Seq<char>, u32>)
    ensures
        row.protected() ==> verdict_on(row, numbers) is Unchanged || verdict_on(row, numbers)
            is Problem,
        row.increment_only ==> match (verdict_on(row, numbers), row.value) {
            (VerdictModel::Integer { value }, ValueModel::Integer { original }) => original
                <= value,
            (VerdictModel::Float { bits }, ValueModel::Float { original, .. }) => !float::less(
                bits,
                original,
            ),
            (VerdictModel::Integer { .. }, _) => false,
            (VerdictModel::Float { .. }, _) => false,
            _ => true,
        },
{
}

/// Nothing outside the bounds that the schema sets is ever written.
pub proof fn bounds_are_kept(row: StatRowModel, numbers: Map<Seq<char>, u32>)
    ensures
        match (verdict_on(row, numbers), row.bounds) {
            (VerdictModel::Integer { value }, BoundsModel::Integer { min, max, .. }) => min <= value
                <= max,
            (VerdictModel::Float { bits }, BoundsModel::Float { min, max, .. }) => !float::less(
                bits,
                float::resolved(min, numbers),
            ) && !float::less(float::resolved(max, numbers), bits),
            _ => true,
        },
{
}

/// A whole number that is typed in its usual form is what is written, where the
/// row may be written and the number lies within its bounds.
pub proof fn typed_integers_are_written(row: StatRowModel, value: i32, numbers: Map<Seq<char>, u32>)
    requires
        row.text == text::signed_decimal(value as int),
        row.value matches ValueModel::Integer { original } && original != value && (
        row.increment_only ==> original < value),
        allows_integer(row.bounds, value as int),
        !row.protected(),
    ensures
        verdict_on(row, numbers) == (VerdictModel::Integer { value }),
{
    text::signed_decimal_is_trim(value as int);
    text::signed_decimal_reads_back(value as int);
    if let ValueModel::Integer { original } = row.value {
        text::signed_decimal_reads_back(original as int);
    }
}

/// A real number that is typed is what is written, where the row may be written and
/// the number lies within its bounds. Only of a statistic that may but grow it must
/// not be less than the number that Steam reports.
pub proof fn typed_reals_are_written(row: StatRowModel, bits: u32, numbers: Map<Seq<char>, u32>)
    requires
        row.value matches ValueModel::Float { original, shown } && text::trimmed(row.text) != shown
            && (row.increment_only ==> !float::less(bits, original)),
        row.permission as int % 4 == 0,
        numbers.contains_key(text::trimmed(row.text)),
        numbers[text::trimmed(row.text)] == bits,
        row.bounds matches BoundsModel::Float { min, max, .. } ==> !float::less(
            bits,
            float::resolved(min, numbers),
        ) && !float::less(float::resolved(max, numbers), bits),
    ensures
        verdict_on(row, numbers) == (VerdictModel::Float { bits }),
{
    schema::two_lowest_bits_protect(row.permission);
}

/// A whole number that is typed, in whatever form and with white space around it, is
/// what is written, where the row may be written and the number lies within its
/// bounds. Only of a statistic that may but grow it must not be less than the number
/// that Steam reports.
pub proof fn typed_whole_numbers_are_written(
    row: StatRowModel,
    value: i32,
    numbers: Map<Seq<char>, u32>,
)
    requires
        row.value matches ValueModel::Integer { original } && text::trimmed(row.text)
            != text::signed_decimal(original as int) && (row.increment_only ==> original <= value),
        row.permission as int % 4 == 0,
        text::read_i32(text::trimmed(row.text)) == Some(value as int),
        row.bounds matches BoundsModel::Integer { min, max, .. } ==> min <= value <= max,
    ensures
        verdict_on(row, numbers) == (VerdictModel::Integer { value }),
{
    schema::two_lowest_bits_protect(row.permission);
}

/// A row is left alone exactly where its text, white space at its ends aside, is that
/// of the value that Steam reports.
pub proof fn unedited_rows_are_left_alone(row: StatRowModel, numbers: Map<Seq<char>, u32>)
    ensures
        verdict_on(row, numbers) is Unchanged <==> text::trimmed(row.text) == match row.value {
            ValueModel::Integer { original } => text::signed_decimal(original as int),
            ValueModel::Float { shown, .. } => shown,
        },
        row.modified() <==> !(verdict_on(row, numbers) is Unchanged),
{
}

/// There is a problem with an edited row exactly where it is protected, where its text
/// is no number of its type, where the number lies outside its bounds, or where the
/// statistic may but grow and the number is less than the one that Steam reports.
pub proof fn problems_have_their_reasons(row: StatRowModel, numbers: Map<Seq<char>, u32>)
    requires
        row.modified(),
    ensures
        verdict_on(row, numbers) is Problem <==> {
            ||| row.permission as int % 4 != 0
            ||| match row.value {
                ValueModel::Integer { original } => match text::read_i32(text::trimmed(row.text)) {
                    None => true,
                    Some(value) => {
                        ||| row.increment_only && value < original
                        ||| row.bounds matches BoundsModel::Integer { min, max, .. } && (value < min
                            || max < value)
                    },
                },
                ValueModel::Float { original, .. } => {
                    let typed = text::trimmed(row.text);
                    ||| !numbers.contains_key(typed)
                    ||| row.increment_only && float::less(numbers[typed], original)
                    ||| row.bounds matches BoundsModel::Float { min, max, .. } && (float::less(
                        numbers[typed],
                        float::resolved(min, numbers),
                    ) || float::less(float::resolved(max, numbers), numbers[typed]))
                },
            }
        },
{
    schema::two_lowest_bits_protect(row.permission);
}

/// What is wrong with an edit is said in words of its own.
pub proof fn problems_are_named(row: StatRowModel, numbers: Map<Seq<char>, u32>)
    requires
        row.modified(),
    ensures
        row.permission as int % 4 != 0 ==> verdict_on(row, numbers) == (VerdictModel::Problem {
            words: "protected"@,
        }),
        row.permission as int % 4 == 0 ==> match row.value {
            ValueModel::Integer { original } => match text::read_i32(text::trimmed(row.text)) {
                None => verdict_on(row, numbers) == (VerdictModel::Problem {
                    words: "not a whole number"@,
                }),
                Some(value) => row.increment_only && value < original ==> verdict_on(row, numbers)
                    == (VerdictModel::Problem { words: "increment only"@ }),
            },
            ValueModel::Float { original, .. } => {
                let typed = text::trimmed(row.text);
                &&& !numbers.contains_key(typed) ==> verdict_on(row, numbers) == (
                VerdictModel::Problem { words: "not a number"@ })
                &&& numbers.contains_key(typed) && row.increment_only && float::less(
                    numbers[typed],
                    original,
                ) ==> verdict_on(row, numbers) == (VerdictModel::Problem {
                    words: "increment only"@,
                })
            },
        },
{
    schema::two_lowest_bits_protect(row.permission);
}

/// Numbers on the way to the limits of a statistic are allowed, and no others: every
/// whole number between two that are allowed is allowed.
pub proof fn bounds_have_no_gaps(bounds: BoundsModel, low: int, value: int, high: int)
    requires
        allows_integer(bounds, low),
        allows_integer(bounds, high),
        low <= value <= high,
    ensures
        allows_integer(bounds, value),
        bounds matches BoundsModel::Integer { min, max, .. } ==> min <= max && allows_integer(
            bounds,
            min as int,
        ) && allows_integer(bounds, max as int) && !allows_integer(bounds, min - 1)
            && !allows_integer(bounds, max + 1),
{
}

/// Every text that a verdict rests on is among those to read beforehand: what was
/// typed for a real number, and the limits that are given as text.
pub proof fn all_texts_are_read(row: StatRowModel)
    ensures
        row.value is Float ==> texts_to_read(row).contains(text::trimmed(row.text)),
        row.bounds matches BoundsModel::Float { min, max, .. } ==> {
            &&& min matches FloatModel::Text { text, .. } ==> texts_to_read(row).contains(text)
            &&& max matches FloatModel::Text { text, .. } ==> texts_to_read(row).contains(text)
        },
{
    let all = texts_to_read(row);
    let own = if row.value is Float {
        1int
    } else {
        0
    };
    if row.value is Float {
        assert(all[0] == text::trimmed(row.text));
    }
    if let BoundsModel::Float { min, max, .. } = row.bounds {
        if let FloatModel::Text { text, .. } = min {
            assert(all[own] == text);
            if let FloatModel::Text { text: other, .. } = max {
                assert(all[own + 1] == other);
            }
        } else if let FloatModel::Text { text, .. } = max {
            assert(all[own] == text);
        }
    }
}

/// The row of an achievement holds what the schema says of it and what Steam reports:
/// it is unedited, and it has the icon of either state, of which the one for locked
/// achievements may be wanting.
pub proof fn rows_hold_what_is_known(def: AchievementModel, unlocked: bool, unlock_time: u32)
    ensures
        ({
            let row = row_of(def, unlocked, unlock_time);
            &&& row.id == def.id
            &&& row.description == def.description
            &&& row.icon_unlocked == def.icon_normal
            &&& def.icon_locked.len() > 0 ==> row.icon_locked == def.icon_locked
            &&& def.icon_locked.len() == 0 ==> row.icon_locked == def.icon_normal
            &&& row.permission == def.permission
            &&& row.hidden == def.hidden
            &&& row.original == unlocked
            &&& row.current == unlocked
            &&& row.unlock_time == unlock_time
        }),
{
}

/// An achievement is shown under its name, unless that is empty or an unresolved token,
/// which begins with a number sign; then under its id.
pub proof fn tokens_are_no_names(def: AchievementModel, unlocked: bool, unlock_time: u32)
    ensures
        def.name.len() > 0 && def.name[0] != '#' ==> row_of(def, unlocked, unlock_time).name
            == def.name,
        def.name.len() > 0 && def.name[0] == '#' ==> row_of(def, unlocked, unlock_time).name
            == def.id,
        def.name.len() == 0 ==> row_of(def, unlocked, unlock_time).name == def.id,
{
}

/// The row of a statistic holds what the schema says of it and the value that Steam
/// reports, as text and unedited; there is one exactly where the value is of the type
/// that the schema gives.
pub proof fn stat_rows_hold_what_is_known(def: StatModel, value: ValueModel)
    ensures
        stat_row_of(def, value) is Some <==> (def.bounds is Integer <==> value is Integer),
        stat_row_of(def, value) matches Some(row) ==> {
            &&& row.id == def.id
            &&& row.display_name == def.display_name
            &&& row.value == value
            &&& row.bounds == def.bounds
            &&& row.permission == def.permission
            &&& row.increment_only == def.increment_only
            &&& row.problem is None
            &&& value matches ValueModel::Integer { original } ==> row.text == text::signed_decimal(
                original as int,
            ) && text::read_i32(row.text) == Some(original as int)
            &&& value matches ValueModel::Float { shown, .. } ==> row.text == shown
        },
{
    if let ValueModel::Integer { original } = value {
        text::signed_decimal_reads_back(original as int);
    }
}

/// A number that is no less than it may be but lies outside its bounds is said to be so.
pub proof fn numbers_out_of_bounds_are_said_to_be(row: StatRowModel, numbers: Map<Seq<char>, u32>)
    requires
        row.modified(),
        row.permission as int % 4 == 0,
        match row.value {
            ValueModel::Integer { original } => {
                &&& text::read_i32(text::trimmed(row.text)) matches Some(value)
                &&& row.increment_only ==> original <= value
                &&& row.bounds matches BoundsModel::Integer { min, max, .. }
                &&& value < min || max < value
            },
            ValueModel::Float { original, .. } => {
                let typed = text::trimmed(row.text);
                &&& numbers.contains_key(typed)
                &&& row.increment_only ==> !float::less(numbers[typed], original)
                &&& row.bounds matches BoundsModel::Float { min, max, .. }
                &&& float::less(numbers[typed], float::resolved(min, numbers)) || float::less(
                    float::resolved(max, numbers),
                    numbers[typed],
                )
            },
        },
    ensures
        verdict_on(row, numbers) == (VerdictModel::Problem { words: "out of bounds"@ }),
{
    schema::two_lowest_bits_protect(row.permission);
}

} // verus!
