//! The achievement and statistic schema for one app.
//!
//! Steam's client interface exposes stat and achievement *values* only. Every
//! piece of metadata — display names, descriptions, icon file names, min/max
//! bounds and the permission bits that mark a stat protected — comes from the
//! binary KeyValues blob Steam caches at
//! `<steam>/appcache/stats/UserGameStatsSchema_<appid>.bin`.

use vstd::prelude::*;

use crate::error::{Error, ErrorModel};
use crate::float;
use crate::float::{FloatModel, FloatTexts, FloatValue};
use crate::text;
use crate::vdf;
use crate::vdf::{Datum, KeyValue, Lookup, Node};

verus! {

/// `UserStatType` from the Steam client.
#[derive(Debug, Clone, Copy, PartialEq, Eq, Structural)]
pub enum UserStatType {
    Invalid,
    Integer,
    Float,
    AverageRate,
    Achievements,
    GroupAchievements,
}

/// The type that a name stands for, whatever the case of its letters. `Int` is
/// an alias for `Integer`, `AvgRate` one for `AverageRate`.
pub open spec fn type_named(name: Seq<char>) -> Option<UserStatType> {
    if text::same_ignoring_ascii_case(name, "invalid"@) {
        Some(UserStatType::Invalid)
    } else if text::same_ignoring_ascii_case(name, "int"@) || text::same_ignoring_ascii_case(
        name,
        "integer"@,
    ) {
        Some(UserStatType::Integer)
    } else if text::same_ignoring_ascii_case(name, "float"@) {
        Some(UserStatType::Float)
    } else if text::same_ignoring_ascii_case(name, "avgrate"@) || text::same_ignoring_ascii_case(
        name,
        "averagerate"@,
    ) {
        Some(UserStatType::AverageRate)
    } else if text::same_ignoring_ascii_case(name, "achievements"@) {
        Some(UserStatType::Achievements)
    } else if text::same_ignoring_ascii_case(name, "groupachievements"@) {
        Some(UserStatType::GroupAchievements)
    } else {
        None
    }
}

/// The type that a number stands for.
pub open spec fn type_numbered(raw: int) -> UserStatType {
    if raw == 1 {
        UserStatType::Integer
    } else if raw == 2 {
        UserStatType::Float
    } else if raw == 3 {
        UserStatType::AverageRate
    } else if raw == 4 {
        UserStatType::Achievements
    } else if raw == 5 {
        UserStatType::GroupAchievements
    } else {
        UserStatType::Invalid
    }
}

impl UserStatType {
    /// Newer schemas store the type as a string; `Int` is an alias for
    /// `Integer`.
    pub fn from_name(name: &str) -> (r: Option<UserStatType>)
        ensures
            r == type_named(name@),
    {
        if text::eq_ignore_ascii_case(name, "invalid") {
            Some(UserStatType::Invalid)
        } else if text::eq_ignore_ascii_case(name, "int") || text::eq_ignore_ascii_case(
            name,
            "integer",
        ) {
            Some(UserStatType::Integer)
        } else if text::eq_ignore_ascii_case(name, "float") {
            Some(UserStatType::Float)
        } else if text::eq_ignore_ascii_case(name, "avgrate") || text::eq_ignore_ascii_case(
            name,
            "averagerate",
        ) {
            Some(UserStatType::AverageRate)
        } else if text::eq_ignore_ascii_case(name, "achievements") {
            Some(UserStatType::Achievements)
        } else if text::eq_ignore_ascii_case(name, "groupachievements") {
            Some(UserStatType::GroupAchievements)
        } else {
            None
        }
    }

    /// The type behind a number of an older schema.
    pub fn from_raw(raw: i32) -> (r: UserStatType)
        ensures
            r == type_numbered(raw as int),
    {
        match raw {
            1 => UserStatType::Integer,
            2 => UserStatType::Float,
            3 => UserStatType::AverageRate,
            4 => UserStatType::Achievements,
            5 => UserStatType::GroupAchievements,
            _ => UserStatType::Invalid,
        }
    }
}

/// Permission bits. Anything with one of these set is server-controlled and
/// cannot be edited; the UI must refuse rather than let Steam reject the write
/// later.
pub const PERMISSION_PROTECTED_MASK: i32 = 3;

/// Permission bits that mark a definition protected.
pub open spec fn protects(permission: i32) -> bool {
    permission & PERMISSION_PROTECTED_MASK != 0
}

/// Whether a definition's permission bits mark it protected.
pub fn is_protected(permission: i32) -> (r: bool)
    ensures
        r == protects(permission),
{
    permission & PERMISSION_PROTECTED_MASK != 0
}

/// Only the two lowest bits count.
pub proof fn two_lowest_bits_protect(permission: i32)
    ensures
        protects(permission) <==> permission as int % 4 != 0,
{
    assert((permission & 3 != 0) == (permission % 4 != 0)) by (bit_vector);
}

/// One achievement as the schema describes it.
#[derive(Debug, PartialEq)]
pub struct AchievementDefinition {
    pub id: String,
    pub name: String,
    pub description: String,
    pub icon_normal: String,
    pub icon_locked: String,
    pub hidden: bool,
    pub permission: i32,
}

/// What an [`AchievementDefinition`] says.
pub struct AchievementModel {
    pub id: Seq<char>,
    pub name: Seq<char>,
    pub description: Seq<char>,
    pub icon_normal: Seq<char>,
    pub icon_locked: Seq<char>,
    pub hidden: bool,
    pub permission: i32,
}

impl View for AchievementDefinition {
    type V = AchievementModel;

    open spec fn view(&self) -> AchievementModel {
        AchievementModel {
            id: self.id@,
            name: self.name@,
            description: self.description@,
            icon_normal: self.icon_normal@,
            icon_locked: self.icon_locked@,
            hidden: self.hidden,
            permission: self.permission,
        }
    }
}

impl Clone for AchievementDefinition {
    fn clone(&self) -> (r: Self)
        ensures
            r@ == self@,
    {
        AchievementDefinition {
            id: self.id.clone(),
            name: self.name.clone(),
            description: self.description.clone(),
            icon_normal: self.icon_normal.clone(),
            icon_locked: self.icon_locked.clone(),
            hidden: self.hidden,
            permission: self.permission,
        }
    }
}

/// The icon file for an unlock state, of an unlocked icon and a locked one that
/// may be absent.
pub open spec fn chosen_icon(unlocked: bool, normal: Seq<char>, locked: Seq<char>) -> Seq<char> {
    if unlocked || locked.len() == 0 {
        normal
    } else {
        locked
    }
}

impl AchievementDefinition {
    pub fn is_protected(&self) -> (r: bool)
        ensures
            r == protects(self.permission),
    {
        is_protected(self.permission)
    }

    /// The icon file to show for a given unlock state, falling back to the
    /// unlocked icon when a game ships no greyed-out variant.
    pub fn icon_for(&self, unlocked: bool) -> (r: &str)
        ensures
            r@ == chosen_icon(unlocked, self@.icon_normal, self@.icon_locked),
    {
        if unlocked || self.icon_locked.as_str().is_empty() {
            self.icon_normal.as_str()
        } else {
            self.icon_locked.as_str()
        }
    }
}

/// The limits of a statistic. Real numbers are those that the schema gives, as
/// patterns or as text.
#[derive(Debug, PartialEq)]
#[allow(inconsistent_fields)]
pub enum StatBounds {
    Integer { min: i32, max: i32, max_change: i32, default: i32 },
    Float { min: FloatValue, max: FloatValue, max_change: FloatValue, default: FloatValue },
}

/// What [`StatBounds`] say.
#[allow(inconsistent_fields)]
pub enum BoundsModel {
    Integer { min: i32, max: i32, max_change: i32, default: i32 },
    Float { min: FloatModel, max: FloatModel, max_change: FloatModel, default: FloatModel },
}

impl View for StatBounds {
    type V = BoundsModel;

    open spec fn view(&self) -> BoundsModel {
        match *self {
            StatBounds::Integer { min, max, max_change, default } => BoundsModel::Integer {
                min,
                max,
                max_change,
                default,
            },
            StatBounds::Float { min, max, max_change, default } => BoundsModel::Float {
                min: min@,
                max: max@,
                max_change: max_change@,
                default: default@,
            },
        }
    }
}

impl Clone for StatBounds {
    fn clone(&self) -> (r: Self)
        ensures
            r@ == self@,
    {
        match self {
            StatBounds::Integer { min, max, max_change, default } => StatBounds::Integer {
                min: *min,
                max: *max,
                max_change: *max_change,
                default: *default,
            },
            StatBounds::Float { min, max, max_change, default } => StatBounds::Float {
                min: min.clone(),
                max: max.clone(),
                max_change: max_change.clone(),
                default: default.clone(),
            },
        }
    }
}

/// One statistic as the schema describes it.
#[derive(Debug, PartialEq)]
pub struct StatDefinition {
    pub id: String,
    pub display_name: String,
    pub bounds: StatBounds,
    pub increment_only: bool,
    pub permission: i32,
}

/// What a [`StatDefinition`] says.
pub struct StatModel {
    pub id: Seq<char>,
    pub display_name: Seq<char>,
    pub bounds: BoundsModel,
    pub increment_only: bool,
    pub permission: i32,
}

impl View for StatDefinition {
    type V = StatModel;

    open spec fn view(&self) -> StatModel {
        StatModel {
            id: self.id@,
            display_name: self.display_name@,
            bounds: self.bounds@,
            increment_only: self.increment_only,
            permission: self.permission,
        }
    }
}

impl Clone for StatDefinition {
    fn clone(&self) -> (r: Self)
        ensures
            r@ == self@,
    {
        StatDefinition {
            id: self.id.clone(),
            display_name: self.display_name.clone(),
            bounds: self.bounds.clone(),
            increment_only: self.increment_only,
            permission: self.permission,
        }
    }
}

impl StatDefinition {
    pub fn is_integer(&self) -> (r: bool)
        ensures
            r == (self@.bounds is Integer),
    {
        match &self.bounds {
            StatBounds::Integer { .. } => true,
            _ => false,
        }
    }

    pub fn is_protected(&self) -> (r: bool)
        ensures
            r == protects(self.permission),
    {
        is_protected(self.permission)
    }
}

/// Everything the schema says of one app.
#[derive(Debug, PartialEq)]
pub struct GameSchema {
    pub app_id: u32,
    pub achievements: Vec<AchievementDefinition>,
    pub stats: Vec<StatDefinition>,
}

/// What a [`GameSchema`] says.
pub struct SchemaModel {
    pub app_id: u32,
    pub achievements: Seq<AchievementModel>,
    pub stats: Seq<StatModel>,
}

/// What a list of achievement definitions says.
pub open spec fn achievement_models(list: Seq<AchievementDefinition>) -> Seq<AchievementModel> {
    list.map_values(|a: AchievementDefinition| a@)
}

/// What a list of statistic definitions says.
pub open spec fn stat_models(list: Seq<StatDefinition>) -> Seq<StatModel> {
    list.map_values(|s: StatDefinition| s@)
}

impl View for GameSchema {
    type V = SchemaModel;

    open spec fn view(&self) -> SchemaModel {
        SchemaModel {
            app_id: self.app_id,
            achievements: achievement_models(self.achievements@),
            stats: stat_models(self.stats@),
        }
    }
}

impl Default for GameSchema {
    fn default() -> (r: Self)
        ensures
            r.app_id == 0,
            r.achievements@.len() == 0,
            r.stats@.len() == 0,
    {
        GameSchema { app_id: 0, achievements: Vec::new(), stats: Vec::new() }
    }
}

/// The type of a statistic, in either dialect: a `type` string in newer files, a
/// numeric `type_int` (or numeric `type`) in older ones. The string counts where
/// it names a type other than `Invalid`.
pub open spec fn stat_type(stat: Node) -> UserStatType {
    let named = match stat.child("type"@).value {
        Datum::String(name) => type_named(name),
        _ => None,
    };
    match named {
        Some(t) if t != UserStatType::Invalid => t,
        _ => {
            let number = if stat.child("type_int"@).is_present() {
                stat.child("type_int"@)
            } else {
                stat.child("type"@)
            };
            type_numbered(number.i32_or(0))
        },
    }
}

/// A localized text: in the wanted language, else in English, else the node's
/// own value, else the default. Empty texts are passed over.
pub open spec fn localized_text(
    node: Node,
    language: Seq<char>,
    default: Seq<char>,
    texts: Map<u32, Seq<char>>,
) -> Seq<char> {
    let preferred = node.child(language).text_or(Seq::empty(), texts);
    let english = node.child("english"@).text_or(Seq::empty(), texts);
    let bare = node.text_or(Seq::empty(), texts);
    if preferred.len() > 0 {
        preferred
    } else if english.len() > 0 {
        english
    } else if bare.len() > 0 {
        bare
    } else {
        default
    }
}

/// The id of an entry: the text of its `name`.
pub open spec fn entry_id(entry: Node, texts: Map<u32, Seq<char>>) -> Seq<char> {
    entry.child("name"@).text_or(Seq::empty(), texts)
}

/// A statistic's definition around its bounds.
pub open spec fn stat_with(
    stat: Node,
    language: Seq<char>,
    texts: Map<u32, Seq<char>>,
    bounds: BoundsModel,
) -> StatModel {
    let id = entry_id(stat, texts);
    StatModel {
        id,
        display_name: localized_text(
            stat.child("display"@).child("name"@),
            language,
            id,
            texts,
        ),
        bounds,
        increment_only: stat.child("incrementonly"@).bool_or(false),
        permission: stat.child("permission"@).i32_or(0) as i32,
    }
}

/// The bounds of an integer statistic.
pub open spec fn integer_bounds(stat: Node) -> BoundsModel {
    BoundsModel::Integer {
        min: stat.child("min"@).i32_or(i32::MIN as int) as i32,
        max: stat.child("max"@).i32_or(i32::MAX as int) as i32,
        max_change: stat.child("maxchange"@).i32_or(0) as i32,
        default: stat.child("default"@).i32_or(0) as i32,
    }
}

/// The bounds of a statistic that is a real number.
pub open spec fn float_bounds(stat: Node) -> BoundsModel {
    BoundsModel::Float {
        min: stat.child("min"@).float_or(float::LOWEST),
        max: stat.child("max"@).float_or(float::HIGHEST),
        max_change: stat.child("maxchange"@).float_or(0),
        default: stat.child("default"@).float_or(0),
    }
}

/// The definition of a statistic; none where the entry has no id or is no
/// statistic.
pub open spec fn stat_of(
    stat: Node,
    language: Seq<char>,
    texts: Map<u32, Seq<char>>,
) -> Option<StatModel> {
    if entry_id(stat, texts).len() == 0 {
        None
    } else {
        match stat_type(stat) {
            UserStatType::Integer => Some(stat_with(stat, language, texts, integer_bounds(stat))),
            UserStatType::Float => Some(stat_with(stat, language, texts, float_bounds(stat))),
            UserStatType::AverageRate => Some(
                stat_with(stat, language, texts, float_bounds(stat)),
            ),
            _ => None,
        }
    }
}

/// The definition of an achievement; none where the entry has no id.
pub open spec fn achievement_of(
    bit: Node,
    language: Seq<char>,
    texts: Map<u32, Seq<char>>,
) -> Option<AchievementModel> {
    let id = entry_id(bit, texts);
    let display = bit.child("display"@);
    if id.len() == 0 {
        None
    } else {
        Some(
            AchievementModel {
                id,
                name: localized_text(display.child("name"@), language, id, texts),
                description: localized_text(
                    display.child("desc"@),
                    language,
                    Seq::empty(),
                    texts,
                ),
                icon_normal: display.child("icon"@).text_or(Seq::empty(), texts),
                icon_locked: display.child("icon_gray"@).text_or(Seq::empty(), texts),
                hidden: display.child("hidden"@).bool_or(false),
                permission: bit.child("permission"@).i32_or(0) as i32,
            },
        )
    }
}

/// The statistics among a list of entries, in order.
pub open spec fn stats_in(
    list: Seq<Node>,
    language: Seq<char>,
    texts: Map<u32, Seq<char>>,
) -> Seq<StatModel>
    decreases list.len(),
{
    if list.len() == 0 {
        Seq::empty()
    } else {
        let before = stats_in(list.drop_last(), language, texts);
        match stat_of(list.last(), language, texts) {
            Some(s) => before.push(s),
            None => before,
        }
    }
}

/// The achievements that one `bits` container describes, in order.
pub open spec fn achievements_in_bits(
    list: Seq<Node>,
    language: Seq<char>,
    texts: Map<u32, Seq<char>>,
) -> Seq<AchievementModel>
    decreases list.len(),
{
    if list.len() == 0 {
        Seq::empty()
    } else {
        let before = achievements_in_bits(list.drop_last(), language, texts);
        match achievement_of(list.last(), language, texts) {
            Some(a) => before.push(a),
            None => before,
        }
    }
}

/// The achievements of all the `bits` containers in a list, in order.
pub open spec fn achievements_in_all(
    blocks: Seq<Node>,
    language: Seq<char>,
    texts: Map<u32, Seq<char>>,
) -> Seq<AchievementModel>
    decreases blocks.len(),
{
    if blocks.len() == 0 {
        Seq::empty()
    } else {
        achievements_in_all(blocks.drop_last(), language, texts) + achievements_in_bits(
            blocks.last().children,
            language,
            texts,
        )
    }
}

/// The achievements among a list of entries, in order.
pub open spec fn achievements_in(
    list: Seq<Node>,
    language: Seq<char>,
    texts: Map<u32, Seq<char>>,
) -> Seq<AchievementModel>
    decreases list.len(),
{
    if list.len() == 0 {
        Seq::empty()
    } else {
        let before = achievements_in(list.drop_last(), language, texts);
        match stat_type(list.last()) {
            UserStatType::Achievements => before + achievements_in_all(
                list.last().all("bits"@),
                language,
                texts,
            ),
            UserStatType::GroupAchievements => before + achievements_in_all(
                list.last().all("bits"@),
                language,
                texts,
            ),
            _ => before,
        }
    }
}

/// The part of a document that is about one app: the child keyed by its id, or
/// the first child, so that a mismatched file still reads.
pub open spec fn app_part(root: Node, app_id: u32) -> Node {
    let by_id = root.child(text::decimal(app_id as nat));
    if by_id.is_present() {
        by_id
    } else if root.children.len() > 0 {
        root.children[0]
    } else {
        vdf::missing()
    }
}

/// What a document says of one app.
pub open spec fn schema_of(
    root: Node,
    app_id: u32,
    language: Seq<char>,
    texts: Map<u32, Seq<char>>,
) -> SchemaModel {
    let entries = app_part(root, app_id).child("stats"@).children;
    SchemaModel {
        app_id,
        achievements: achievements_in(entries, language, texts),
        stats: stats_in(entries, language, texts),
    }
}

/// Both schema dialects: a `type` string in newer files, a numeric `type_int`
/// (or numeric `type`) in older ones.
fn resolve_stat_type(stat: &KeyValue) -> (r: UserStatType)
    ensures
        r == stat_type(stat@),
{
    let type_node = stat.get("type");
    if let Some(name) = type_node.as_str() {
        if let Some(parsed) = UserStatType::from_name(name) {
            if parsed != UserStatType::Invalid {
                return parsed;
            }
        }
    }
    let type_int_node = stat.get("type_int");
    let raw: i32 = if type_int_node.is_valid() {
        type_int_node.as_i32_or(0)
    } else {
        type_node.as_i32_or(0)
    };
    UserStatType::from_raw(raw)
}

/// Localized string lookup: requested language, then English, then the node's
/// own value, then the supplied default.
fn localized(node: Lookup<'_>, language: &str, default: &str, texts: &FloatTexts) -> (r: String)
    ensures
        r@ == localized_text(node@, language@, default@, texts@),
{
    let preferred = node.get(language).as_string_or("", texts);
    proof {
        reveal_strlit("");
        assert(""@ == Seq::<char>::empty());
    }
    if !preferred.as_str().is_empty() {
        return preferred;
    }
    if !text::eq_ignore_ascii_case(language, "english") {
        let english = node.get("english").as_string_or("", texts);
        if !english.as_str().is_empty() {
            return english;
        }
    } else {
        proof {
            reveal_strlit("english");
            text::ascii_case_is_case(language@, "english"@);
            crate::wire::lookup_ignores_case(node@, language@, "english"@);
        }
    }
    let bare = node.as_string_or("", texts);
    if !bare.as_str().is_empty() {
        return bare;
    }
    default.to_owned()
}

fn parse_stat(
    stat: &KeyValue,
    language: &str,
    texts: &FloatTexts,
    bounds: StatBounds,
) -> (r: Option<StatDefinition>)
    ensures
        if entry_id(stat@, texts@).len() == 0 {
            r is None
        } else {
            r matches Some(s) && s@ == stat_with(stat@, language@, texts@, bounds@)
        },
{
    proof {
        reveal_strlit("");
        assert(""@ == Seq::<char>::empty());
    }
    let id = stat.get("name").as_string_or("", texts);
    if id.as_str().is_empty() {
        return None;
    }
    let display_name = localized(stat.get("display").get("name"), language, id.as_str(), texts);
    Some(
        StatDefinition {
            bounds,
            increment_only: stat.get("incrementonly").as_bool_or(false),
            permission: stat.get("permission").as_i32_or(0),
            id,
            display_name,
        },
    )
}

fn parse_integer_stat(stat: &KeyValue, language: &str, texts: &FloatTexts) -> (r: Option<
    StatDefinition,
>)
    ensures
        if entry_id(stat@, texts@).len() == 0 {
            r is None
        } else {
            r matches Some(s) && s@ == stat_with(
                stat@,
                language@,
                texts@,
                integer_bounds(stat@),
            )
        },
{
    let bounds = StatBounds::Integer {
        min: stat.get("min").as_i32_or(i32::MIN),
        max: stat.get("max").as_i32_or(i32::MAX),
        max_change: stat.get("maxchange").as_i32_or(0),
        default: stat.get("default").as_i32_or(0),
    };
    parse_stat(stat, language, texts, bounds)
}

fn parse_float_stat(stat: &KeyValue, language: &str, texts: &FloatTexts) -> (r: Option<
    StatDefinition,
>)
    ensures
        if entry_id(stat@, texts@).len() == 0 {
            r is None
        } else {
            r matches Some(s) && s@ == stat_with(stat@, language@, texts@, float_bounds(stat@))
        },
{
    let bounds = StatBounds::Float {
        min: stat.get("min").as_f32_or(float::LOWEST),
        max: stat.get("max").as_f32_or(float::HIGHEST),
        max_change: stat.get("maxchange").as_f32_or(0),
        default: stat.get("default").as_f32_or(0),
    };
    parse_stat(stat, language, texts, bounds)
}

fn parse_achievement(bit: &KeyValue, language: &str, texts: &FloatTexts) -> (r: Option<
    AchievementDefinition,
>)
    ensures
        match achievement_of(bit@, language@, texts@) {
            Some(m) => r matches Some(a) && a@ == m,
            None => r is None,
        },
{
    proof {
        reveal_strlit("");
        assert(""@ == Seq::<char>::empty());
    }
    let id = bit.get("name").as_string_or("", texts);
    if id.as_str().is_empty() {
        return None;
    }
    let display = bit.get("display");
    let name = localized(display.get("name"), language, id.as_str(), texts);
    let description = localized(display.get("desc"), language, "", texts);
    Some(
        AchievementDefinition {
            icon_normal: display.get("icon").as_string_or("", texts),
            icon_locked: display.get("icon_gray").as_string_or("", texts),
            hidden: display.get("hidden").as_bool_or(false),
            permission: bit.get("permission").as_i32_or(0),
            id,
            name,
            description,
        },
    )
}

/// Achievement entries hang off repeated `bits` containers, so a
/// single-result lookup would silently drop most of them.
fn collect_achievements(
    stat: &KeyValue,
    language: &str,
    texts: &FloatTexts,
    out: &mut Vec<AchievementDefinition>,
)
    ensures
        achievement_models(final(out)@) == achievement_models(old(out)@) + achievements_in_all(
            stat@.all("bits"@),
            language@,
            texts@,
        ),
{
    let blocks = stat.get_all("bits");
    let ghost list = vdf::referenced(blocks@);
    let ghost start = achievement_models(out@);
    assert(list.take(0) == Seq::<Node>::empty());
    for i in 0..blocks.len()
        invariant
            list == vdf::referenced(blocks@),
            achievement_models(out@) == start + achievements_in_all(
                list.take(i as int),
                language@,
                texts@,
            ),
    {
        let bits = blocks[i];
        let ghost entries = bits@.children;
        let ghost sofar = achievement_models(out@);
        assert(entries.take(0) == Seq::<Node>::empty());
        for k in 0..bits.children.len()
            invariant
                entries == bits@.children,
                achievement_models(out@) == sofar + achievements_in_bits(
                    entries.take(k as int),
                    language@,
                    texts@,
                ),
        {
            let ghost was = out@;
            assert(entries.take(k + 1).drop_last() == entries.take(k as int));
            if let Some(a) = parse_achievement(&bits.children[k], language, texts) {
                out.push(a);
                assert(achievement_models(out@) == achievement_models(was).push(a@));
            }
        }
        assert(entries.take(entries.len() as int) == entries);
        assert(list.take(i + 1).drop_last() == list.take(i as int));
        assert(list.take(i + 1).last() == bits@);
    }
    assert(list.take(list.len() as int) == list);
}

impl GameSchema {
    /// Parse the cached schema for `app_id`, given what reading its file came to:
    /// the bytes, or the operating system's words for why there are none.
    ///
    /// `texts` are the decimal texts of the real numbers in the document; those
    /// are what [`KeyValue::float_bits`] of the parsed bytes gives.
    pub fn load(
        data: Result<Vec<u8>, String>,
        app_id: u32,
        language: &str,
        texts: &FloatTexts,
    ) -> (r: Result<GameSchema, Error>)
        ensures
            match data {
                Err(words) => r matches Err(e) && e@ == ErrorModel::Io(words@),
                Ok(bytes) => match vdf::document(bytes@) {
                    Err(problem) => r matches Err(e) && e@ == ErrorModel::Vdf(problem),
                    Ok(root) => r matches Ok(schema) && schema@ == schema_of(
                        root,
                        app_id,
                        language@,
                        texts@,
                    ),
                },
            },
    {
        match data {
            Err(words) => Err(Error::Io(words)),
            Ok(bytes) => match vdf::parse(bytes.as_slice()) {
                Err(problem) => Err(Error::from(problem)),
                Ok(root) => Ok(GameSchema::from_keyvalues(&root, app_id, language, texts)),
            },
        }
    }

    /// Build from an already-parsed document.
    ///
    /// `language` selects localized display strings, with the usual fallback
    /// chain: requested language, then English, then the bare node value.
    pub fn from_keyvalues(
        root: &KeyValue,
        app_id: u32,
        language: &str,
        texts: &FloatTexts,
    ) -> (r: GameSchema)
        ensures
            r@ == schema_of(root@, app_id, language@, texts@),
    {
        let mut achievements: Vec<AchievementDefinition> = Vec::new();
        let mut stats: Vec<StatDefinition> = Vec::new();
        let app_key = text::decimal_text(app_id as u64);
        let by_id = root.get(app_key.as_str());
        let app_node = if by_id.is_valid() {
            by_id
        } else if root.children.len() > 0 {
            assert(root@.children[0] == root.children@[0]@);
            Lookup { found: Some(&root.children[0]) }
        } else {
            Lookup { found: None }
        };
        assert(app_node@ == app_part(root@, app_id));
        let listed = app_node.get("stats");
        let ghost entries = listed@.children;
        assert(entries.take(0) == Seq::<Node>::empty());
        assert(achievement_models(achievements@) == Seq::<AchievementModel>::empty());
        assert(stat_models(stats@) == Seq::<StatModel>::empty());
        if let Some(node) = listed.found {
            for i in 0..node.children.len()
                invariant
                    entries == node@.children,
                    achievement_models(achievements@) == achievements_in(
                        entries.take(i as int),
                        language@,
                        texts@,
                    ),
                    stat_models(stats@) == stats_in(entries.take(i as int), language@, texts@),
            {
                let stat = &node.children[i];
                assert(entries.take(i + 1).drop_last() == entries.take(i as int));
                assert(entries.take(i + 1).last() == stat@);
                let ghost was = stats@;
                match resolve_stat_type(stat) {
                    UserStatType::Integer => {
                        if let Some(def) = parse_integer_stat(stat, language, texts) {
                            stats.push(def);
                            assert(stat_models(stats@) == stat_models(was).push(def@));
                        }
                    },
                    UserStatType::Float => {
                        if let Some(def) = parse_float_stat(stat, language, texts) {
                            stats.push(def);
                            assert(stat_models(stats@) == stat_models(was).push(def@));
                        }
                    },
                    UserStatType::AverageRate => {
                        if let Some(def) = parse_float_stat(stat, language, texts) {
                            stats.push(def);
                            assert(stat_models(stats@) == stat_models(was).push(def@));
                        }
                    },
                    UserStatType::Achievements => {
                        collect_achievements(stat, language, texts, &mut achievements);
                    },
                    UserStatType::GroupAchievements => {
                        collect_achievements(stat, language, texts, &mut achievements);
                    },
                    UserStatType::Invalid => {},
                }
            }
            assert(entries.take(entries.len() as int) == entries);
        }
        GameSchema { app_id, achievements, stats }
    }

    /// Integer stat names, used to probe the vtable overload order.
    pub fn integer_stat_names(&self) -> (r: Vec<String>)
        ensures
            text::texts_of(r@) == stat_ids(self@.stats, true),
    {
        names_of(&self.stats, true)
    }

    /// Float stat names, the secondary probe for the overload order.
    pub fn float_stat_names(&self) -> (r: Vec<String>)
        ensures
            text::texts_of(r@) == stat_ids(self@.stats, false),
    {
        names_of(&self.stats, false)
    }

    /// The first achievement with that id.
    pub fn achievement(&self, id: &str) -> (r: Option<&AchievementDefinition>)
        ensures
            match first_with_id(self@.achievements, id@) {
                Some(i) => r matches Some(a) && *a == self.achievements@[i],
                None => r is None,
            },
    {
        let ghost list = self@.achievements;
        for i in 0..self.achievements.len()
            invariant
                list == self@.achievements,
                forall|k: int| 0 <= k < i ==> (#[trigger] list[k]).id != id@,
        {
            if text::same_text(self.achievements[i].id.as_str(), id) {
                proof {
                    first_with_id_is(list, id@, i as int);
                }
                return Some(&self.achievements[i]);
            }
        }
        proof {
            first_with_id_is(list, id@, list.len() as int);
        }
        None
    }
}

/// The ids of the integer statistics in a list, or of the others, in order.
pub open spec fn stat_ids(list: Seq<StatModel>, integer: bool) -> Seq<Seq<char>> {
    list.filter(|s: StatModel| s.bounds is Integer == integer).map_values(|s: StatModel| s.id)
}

/// Where the first achievement with that id stands in a list.
pub open spec fn first_with_id(list: Seq<AchievementModel>, id: Seq<char>) -> Option<int>
    decreases list.len(),
{
    if list.len() == 0 {
        None
    } else {
        match first_with_id(list.drop_last(), id) {
            Some(i) => Some(i),
            None => if list.last().id == id {
                Some(list.len() - 1)
            } else {
                None
            },
        }
    }
}

proof fn first_with_id_is(list: Seq<AchievementModel>, id: Seq<char>, at: int)
    requires
        0 <= at <= list.len(),
        forall|k: int| 0 <= k < at ==> (#[trigger] list[k]).id != id,
        at < list.len() ==> list[at].id == id,
    ensures
        first_with_id(list, id) == if at < list.len() {
            Some(at)
        } else {
            None
        },
    decreases list.len(),
{
    if list.len() > 0 {
        let shorter = list.drop_last();
        assert forall|k: int| 0 <= k < at && k < shorter.len() implies (
        #[trigger] shorter[k]).id != id by {
            assert(shorter[k] == list[k]);
        }
        first_with_id_is(
            shorter,
            id,
            if at < shorter.len() {
                at
            } else {
                shorter.len() as int
            },
        );
        if at == list.len() {
            assert(list[list.len() - 1].id != id);
        }
    }
}

fn names_of(stats: &Vec<StatDefinition>, integer: bool) -> (r: Vec<String>)
    ensures
        text::texts_of(r@) == stat_ids(stat_models(stats@), integer),
{
    let ghost list = stat_models(stats@);
    let ghost wanted = |s: StatModel| s.bounds is Integer == integer;
    let mut r: Vec<String> = Vec::new();
    assert(list.take(0).filter(wanted) == Seq::<StatModel>::empty()) by {
        reveal(Seq::filter);
    }
    assert(text::texts_of(r@) == stat_ids(list.take(0), integer));
    for i in 0..stats.len()
        invariant
            list == stat_models(stats@),
            wanted == |s: StatModel| s.bounds is Integer == integer,
            text::texts_of(r@) == stat_ids(list.take(i as int), integer),
    {
        proof {
            assert(list.take(i + 1) == list.take(i as int).push(list[i as int]));
            list.take(i as int).lemma_filter_push(list[i as int], wanted);
        }
        let ghost was = r@;
        if stats[i].is_integer() == integer {
            r.push(stats[i].id.clone());
            assert(text::texts_of(r@) == text::texts_of(was).push(list[i as int].id));
            assert(stat_ids(list.take(i + 1), integer) == stat_ids(
                list.take(i as int),
                integer,
            ).push(list[i as int].id));
        }
    }
    assert(list.take(list.len() as int) == list);
    r
}

/// No statistic that has an id is dropped, nor any achievement that has one,
/// whichever of the repeated `bits` containers it hangs off.
pub proof fn no_definition_is_dropped(
    root: Node,
    app_id: u32,
    language: Seq<char>,
    texts: Map<u32, Seq<char>>,
    i: int,
)
    requires
        0 <= i < app_part(root, app_id).child("stats"@).children.len(),
    ensures
        ({
            let schema = schema_of(root, app_id, language, texts);
            let entry = app_part(root, app_id).child("stats"@).children[i];
            let blocks = entry.all("bits"@);
            &&& stat_of(entry, language, texts) matches Some(stat) ==> schema.stats.contains(stat)
            &&& stat_type(entry) == UserStatType::Achievements || stat_type(entry)
                == UserStatType::GroupAchievements ==> forall|j: int, k: int|
                0 <= j < blocks.len() && 0 <= k < blocks[j].children.len() ==> (achievement_of(
                    #[trigger] blocks[j].children[k],
                    language,
                    texts,
                ) matches Some(achievement) ==> schema.achievements.contains(achievement))
        }),
{
    let entries = app_part(root, app_id).child("stats"@).children;
    let entry = entries[i];
    let blocks = entry.all("bits"@);
    if stat_of(entry, language, texts) is Some {
        stat_is_kept(entries, language, texts, i);
    }
    if stat_type(entry) == UserStatType::Achievements || stat_type(entry)
        == UserStatType::GroupAchievements {
        assert forall|j: int, k: int|
            0 <= j < blocks.len() && 0 <= k < blocks[j].children.len() implies (achievement_of(
            #[trigger] blocks[j].children[k],
            language,
            texts,
        ) matches Some(achievement) ==> achievements_in(entries, language, texts).contains(
            achievement,
        )) by {
            if let Some(achievement) = achievement_of(blocks[j].children[k], language, texts) {
                achievement_is_in_its_block(blocks[j].children, language, texts, k);
                achievement_is_in_all(blocks, language, texts, j, achievement);
                achievement_is_kept(entries, language, texts, i, achievement);
            }
        }
    }
}

proof fn stat_is_kept(
    list: Seq<Node>,
    language: Seq<char>,
    texts: Map<u32, Seq<char>>,
    i: int,
)
    requires
        0 <= i < list.len(),
        stat_of(list[i], language, texts) is Some,
    ensures
        stats_in(list, language, texts).contains(stat_of(list[i], language, texts)->0),
    decreases list.len(),
{
    let before = stats_in(list.drop_last(), language, texts);
    let wanted = stat_of(list[i], language, texts)->0;
    if i == list.len() - 1 {
        assert(stats_in(list, language, texts)[before.len() as int] == wanted);
    } else {
        stat_is_kept(list.drop_last(), language, texts, i);
        let at = choose|at: int| 0 <= at < before.len() && before[at] == wanted;
        assert(stats_in(list, language, texts)[at] == wanted);
    }
}

proof fn achievement_is_in_its_block(
    list: Seq<Node>,
    language: Seq<char>,
    texts: Map<u32, Seq<char>>,
    i: int,
)
    requires
        0 <= i < list.len(),
        achievement_of(list[i], language, texts) is Some,
    ensures
        achievements_in_bits(list, language, texts).contains(
            achievement_of(list[i], language, texts)->0,
        ),
    decreases list.len(),
{
    let before = achievements_in_bits(list.drop_last(), language, texts);
    let wanted = achievement_of(list[i], language, texts)->0;
    if i == list.len() - 1 {
        assert(achievements_in_bits(list, language, texts)[before.len() as int] == wanted);
    } else {
        achievement_is_in_its_block(list.drop_last(), language, texts, i);
        let at = choose|at: int| 0 <= at < before.len() && before[at] == wanted;
        assert(achievements_in_bits(list, language, texts)[at] == wanted);
    }
}

proof fn achievement_is_in_all(
    blocks: Seq<Node>,
    language: Seq<char>,
    texts: Map<u32, Seq<char>>,
    j: int,
    wanted: AchievementModel,
)
    requires
        0 <= j < blocks.len(),
        achievements_in_bits(blocks[j].children, language, texts).contains(wanted),
    ensures
        achievements_in_all(blocks, language, texts).contains(wanted),
    decreases blocks.len(),
{
    let before = achievements_in_all(blocks.drop_last(), language, texts);
    let own = achievements_in_bits(blocks.last().children, language, texts);
    let all = achievements_in_all(blocks, language, texts);
    if j == blocks.len() - 1 {
        let at = choose|at: int| 0 <= at < own.len() && own[at] == wanted;
        assert(all[before.len() + at] == wanted);
    } else {
        achievement_is_in_all(blocks.drop_last(), language, texts, j, wanted);
        let at = choose|at: int| 0 <= at < before.len() && before[at] == wanted;
        assert(all[at] == wanted);
    }
}

proof fn achievement_is_kept(
    list: Seq<Node>,
    language: Seq<char>,
    texts: Map<u32, Seq<char>>,
    i: int,
    wanted: AchievementModel,
)
    requires
        0 <= i < list.len(),
        stat_type(list[i]) == UserStatType::Achievements || stat_type(list[i])
            == UserStatType::GroupAchievements,
        achievements_in_all(list[i].all("bits"@), language, texts).contains(wanted),
    ensures
        achievements_in(list, language, texts).contains(wanted),
    decreases list.len(),
{
    let before = achievements_in(list.drop_last(), language, texts);
    let own = achievements_in_all(list.last().all("bits"@), language, texts);
    let all = achievements_in(list, language, texts);
    if i == list.len() - 1 {
        let at = choose|at: int| 0 <= at < own.len() && own[at] == wanted;
        assert(all[before.len() + at] == wanted);
    } else {
        achievement_is_kept(list.drop_last(), language, texts, i, wanted);
        let at = choose|at: int| 0 <= at < before.len() && before[at] == wanted;
        assert(all[at] == wanted);
    }
}

/// However sparse a document, every achievement and every statistic read from it
/// has an id and a name to show.
pub proof fn definitions_have_names(
    root: Node,
    app_id: u32,
    language: Seq<char>,
    texts: Map<u32, Seq<char>>,
)
    ensures
        ({
            let schema = schema_of(root, app_id, language, texts);
            &&& forall|i: int|
                0 <= i < schema.stats.len() ==> (#[trigger] schema.stats[i]).id.len() > 0
                    && schema.stats[i].display_name.len() > 0
            &&& forall|i: int|
                0 <= i < schema.achievements.len() ==> (
                #[trigger] schema.achievements[i]).id.len() > 0
                    && schema.achievements[i].name.len() > 0
        }),
{
    let entries = app_part(root, app_id).child("stats"@).children;
    stats_have_names(entries, language, texts);
    achievements_have_names(entries, language, texts);
}

proof fn stats_have_names(list: Seq<Node>, language: Seq<char>, texts: Map<u32, Seq<char>>)
    ensures
        forall|i: int|
            0 <= i < stats_in(list, language, texts).len() ==> (#[trigger] stats_in(
                list,
                language,
                texts,
            )[i]).id.len() > 0 && stats_in(list, language, texts)[i].display_name.len() > 0,
    decreases list.len(),
{
    if list.len() > 0 {
        stats_have_names(list.drop_last(), language, texts);
    }
}

spec fn all_named(list: Seq<AchievementModel>) -> bool {
    forall|i: int|
        0 <= i < list.len() ==> (#[trigger] list[i]).id.len() > 0 && list[i].name.len() > 0
}

proof fn bits_have_names(list: Seq<Node>, language: Seq<char>, texts: Map<u32, Seq<char>>)
    ensures
        all_named(achievements_in_bits(list, language, texts)),
    decreases list.len(),
{
    if list.len() > 0 {
        bits_have_names(list.drop_last(), language, texts);
    }
}

proof fn blocks_have_names(blocks: Seq<Node>, language: Seq<char>, texts: Map<u32, Seq<char>>)
    ensures
        all_named(achievements_in_all(blocks, language, texts)),
    decreases blocks.len(),
{
    if blocks.len() > 0 {
        blocks_have_names(blocks.drop_last(), language, texts);
        bits_have_names(blocks.last().children, language, texts);
    }
}

proof fn achievements_have_names(list: Seq<Node>, language: Seq<char>, texts: Map<u32, Seq<char>>)
    ensures
        all_named(achievements_in(list, language, texts)),
    decreases list.len(),
{
    if list.len() > 0 {
        achievements_have_names(list.drop_last(), language, texts);
        blocks_have_names(list.last().all("bits"@), language, texts);
    }
}

/// A document that holds one part of another, and nothing else.
pub open spec fn alone(root: Node, part: Node) -> Node {
    Node { children: seq![part], ..root }
}

/// Of the parts of a document the first that is named after the app is read,
/// wherever it stands and whatever the others are called or hold.
pub proof fn the_part_named_after_the_app_is_read(
    root: Node,
    app_id: u32,
    language: Seq<char>,
    texts: Map<u32, Seq<char>>,
    i: int,
)
    requires
        0 <= i < root.children.len(),
        root.children[i].name == text::decimal(app_id as nat),
        forall|j: int|
            0 <= j < i ==> (#[trigger] root.children[j]).name != text::decimal(app_id as nat),
    ensures
        app_part(root, app_id) == root.children[i],
        schema_of(root, app_id, language, texts) == schema_of(
            alone(root, root.children[i]),
            app_id,
            language,
            texts,
        ),
{
    text::decimal_denotes(app_id as nat);
    first_of_that_number(root.children, text::decimal(app_id as nat), i);
    a_lone_part_is_read(alone(root, root.children[i]), app_id, language, texts, Seq::empty());
}

/// Where no part of a document is named after the app, its first part is read.
pub proof fn a_mismatched_document_is_read_by_its_first_part(
    root: Node,
    app_id: u32,
    language: Seq<char>,
    texts: Map<u32, Seq<char>>,
)
    requires
        root.children.len() > 0,
        forall|j: int|
            0 <= j < root.children.len() ==> (#[trigger] root.children[j]).name != text::decimal(
                app_id as nat,
            ),
    ensures
        app_part(root, app_id) == root.children[0],
        schema_of(root, app_id, language, texts) == schema_of(
            alone(root, root.children[0]),
            app_id,
            language,
            texts,
        ),
{
    text::decimal_denotes(app_id as nat);
    none_of_that_number(root.children, text::decimal(app_id as nat));
    a_lone_part_is_read(alone(root, root.children[0]), app_id, language, texts, Seq::empty());
}

/// The only part of a document is read whatever it is called, and for the app that
/// was asked for.
pub proof fn a_lone_part_is_read(
    root: Node,
    app_id: u32,
    language: Seq<char>,
    texts: Map<u32, Seq<char>>,
    name: Seq<char>,
)
    requires
        root.children.len() == 1,
    ensures
        app_part(root, app_id) == root.children[0],
        schema_of(root, app_id, language, texts).app_id == app_id,
        schema_of(root, app_id, language, texts) == schema_of(
            alone(root, Node { name, ..root.children[0] }),
            app_id,
            language,
            texts,
        ),
{
    let renamed = alone(root, Node { name, ..root.children[0] });
    lone_part(root, app_id);
    lone_part(renamed, app_id);
}

proof fn lone_part(root: Node, app_id: u32)
    requires
        root.children.len() == 1,
    ensures
        app_part(root, app_id) == root.children[0],
{
    let key = text::decimal(app_id as nat);
    assert(root.children.skip(1) == Seq::<Node>::empty());
    assert(vdf::first_named(root.children.skip(1), key) == vdf::missing());
}

/// A document without parts defines nothing.
pub proof fn an_empty_document_defines_nothing(
    root: Node,
    app_id: u32,
    language: Seq<char>,
    texts: Map<u32, Seq<char>>,
)
    requires
        root.children.len() == 0,
    ensures
        schema_of(root, app_id, language, texts) == (SchemaModel {
            app_id,
            achievements: Seq::empty(),
            stats: Seq::empty(),
        }),
{
}

proof fn first_of_that_number(list: Seq<Node>, key: Seq<char>, i: int)
    requires
        0 <= i < list.len(),
        text::is_numeral(key),
        list[i].name == key,
        forall|j: int| 0 <= j < i ==> (#[trigger] list[j]).name != key,
    ensures
        vdf::first_named(list, key) == list[i],
    decreases i,
{
    if i > 0 {
        let rest = list.skip(1);
        assert(rest[i - 1] == list[i]);
        assert forall|j: int| 0 <= j < i - 1 implies (#[trigger] rest[j]).name != key by {
            assert(rest[j] == list[j + 1]);
        }
        first_of_that_number(rest, key, i - 1);
    }
}

proof fn none_of_that_number(list: Seq<Node>, key: Seq<char>)
    requires
        text::is_numeral(key),
        forall|j: int| 0 <= j < list.len() ==> (#[trigger] list[j]).name != key,
    ensures
        vdf::first_named(list, key) == vdf::missing(),
    decreases list.len(),
{
    if list.len() > 0 {
        let rest = list.skip(1);
        assert forall|j: int| 0 <= j < rest.len() implies (#[trigger] rest[j]).name != key by {
            assert(rest[j] == list[j + 1]);
        }
        none_of_that_number(rest, key);
    }
}

/// `said` is what a node says to a reader of `language`: the text that it has in that
/// language, whatever else it holds; else the English one; else its own value; else
/// `default`.
pub open spec fn is_said(
    said: Seq<char>,
    node: Node,
    language: Seq<char>,
    default: Seq<char>,
    texts: Map<u32, Seq<char>>,
) -> bool {
    let own = node.child(language).text_or(Seq::empty(), texts);
    let english = node.child("english"@).text_or(Seq::empty(), texts);
    let bare = node.text_or(Seq::empty(), texts);
    &&& own.len() > 0 ==> said == own
    &&& own.len() == 0 && english.len() > 0 ==> said == english
    &&& own.len() == 0 && english.len() == 0 && bare.len() > 0 ==> said == bare
    &&& own.len() == 0 && english.len() == 0 && bare.len() == 0 ==> said == default
}

/// A definition of a statistic is what an entry of a document says.
pub open spec fn stat_says(
    stat: StatModel,
    entry: Node,
    language: Seq<char>,
    texts: Map<u32, Seq<char>>,
) -> bool {
    &&& stat.id.len() > 0
    &&& stat.id == entry.child("name"@).text_or(Seq::empty(), texts)
    &&& is_said(
        stat.display_name,
        entry.child("display"@).child("name"@),
        language,
        stat.id,
        texts,
    )
    &&& stat.increment_only == entry.child("incrementonly"@).bool_or(false)
    &&& stat.permission == entry.child("permission"@).i32_or(0)
    &&& match stat.bounds {
        BoundsModel::Integer { min, max, max_change, default } => {
            &&& stat_type(entry) is Integer
            &&& min == entry.child("min"@).i32_or(i32::MIN as int)
            &&& max == entry.child("max"@).i32_or(i32::MAX as int)
            &&& max_change == entry.child("maxchange"@).i32_or(0)
            &&& default == entry.child("default"@).i32_or(0)
        },
        BoundsModel::Float { min, max, max_change, default } => {
            &&& stat_type(entry) is Float || stat_type(entry) is AverageRate
            &&& min == entry.child("min"@).float_or(0xff7f_ffff)
            &&& max == entry.child("max"@).float_or(0x7f7f_ffff)
            &&& max_change == entry.child("maxchange"@).float_or(0)
            &&& default == entry.child("default"@).float_or(0)
        },
    }
}

/// A definition of an achievement is what an entry of a document says.
pub open spec fn achievement_says(
    achievement: AchievementModel,
    bit: Node,
    language: Seq<char>,
    texts: Map<u32, Seq<char>>,
) -> bool {
    let display = bit.child("display"@);
    &&& achievement.id.len() > 0
    &&& achievement.id == bit.child("name"@).text_or(Seq::empty(), texts)
    &&& is_said(achievement.name, display.child("name"@), language, achievement.id, texts)
    &&& is_said(achievement.description, display.child("desc"@), language, Seq::empty(), texts)
    &&& achievement.icon_normal == display.child("icon"@).text_or(Seq::empty(), texts)
    &&& achievement.icon_locked == display.child("icon_gray"@).text_or(Seq::empty(), texts)
    &&& achievement.hidden == display.child("hidden"@).bool_or(false)
    &&& achievement.permission == bit.child("permission"@).i32_or(0)
}

proof fn integers_fit(node: Node, default: int)
    requires
        i32::MIN <= default <= i32::MAX,
    ensures
        i32::MIN <= node.i32_or(default) <= i32::MAX,
{
    if let Datum::Float32(bits) = node.value {
        float::cut_numbers_fit(bits);
    }
}

proof fn stat_of_says(stat: StatModel, entry: Node, language: Seq<char>, texts: Map<u32, Seq<char>>)
    requires
        stat_of(entry, language, texts) == Some(stat),
    ensures
        stat_says(stat, entry, language, texts),
{
    integers_fit(entry.child("permission"@), 0);
    integers_fit(entry.child("min"@), i32::MIN as int);
    integers_fit(entry.child("max"@), i32::MAX as int);
    integers_fit(entry.child("maxchange"@), 0);
    integers_fit(entry.child("default"@), 0);
}

/// Every statistic of a schema is what some entry says, in the language that was
/// asked for.
pub proof fn stats_are_what_their_entries_say(
    root: Node,
    app_id: u32,
    language: Seq<char>,
    texts: Map<u32, Seq<char>>,
    k: int,
)
    requires
        0 <= k < schema_of(root, app_id, language, texts).stats.len(),
    ensures
        exists|i: int|
            0 <= i < app_part(root, app_id).child("stats"@).children.len() && stat_says(
                schema_of(root, app_id, language, texts).stats[k],
                #[trigger] app_part(root, app_id).child("stats"@).children[i],
                language,
                texts,
            ),
{
    let entries = app_part(root, app_id).child("stats"@).children;
    let i = stat_has_entry(entries, language, texts, k);
    stat_of_says(stats_in(entries, language, texts)[k], entries[i], language, texts);
}

proof fn stat_has_entry(
    list: Seq<Node>,
    language: Seq<char>,
    texts: Map<u32, Seq<char>>,
    k: int,
) -> (i: int)
    requires
        0 <= k < stats_in(list, language, texts).len(),
    ensures
        0 <= i < list.len(),
        stat_of(list[i], language, texts) == Some(stats_in(list, language, texts)[k]),
    decreases list.len(),
{
    let before = stats_in(list.drop_last(), language, texts);
    if k < before.len() {
        stat_has_entry(list.drop_last(), language, texts, k)
    } else {
        list.len() - 1
    }
}

/// Every entry that has an id and is a statistic is in the schema, and with it what it
/// says in the language that was asked for.
pub proof fn entries_are_read_in_the_users_language(
    root: Node,
    app_id: u32,
    language: Seq<char>,
    texts: Map<u32, Seq<char>>,
    i: int,
)
    requires
        0 <= i < app_part(root, app_id).child("stats"@).children.len(),
        app_part(root, app_id).child("stats"@).children[i].child("name"@).text_or(
            Seq::empty(),
            texts,
        ).len() > 0,
        ({
            let kind = stat_type(app_part(root, app_id).child("stats"@).children[i]);
            kind is Integer || kind is Float || kind is AverageRate
        }),
    ensures
        exists|k: int|
            0 <= k < schema_of(root, app_id, language, texts).stats.len() && stat_says(
                #[trigger] schema_of(root, app_id, language, texts).stats[k],
                app_part(root, app_id).child("stats"@).children[i],
                language,
                texts,
            ),
{
    let entries = app_part(root, app_id).child("stats"@).children;
    let stat = stat_of(entries[i], language, texts)->0;
    stat_of_says(stat, entries[i], language, texts);
    stat_is_kept(entries, language, texts, i);
    let all = schema_of(root, app_id, language, texts).stats;
    let k = choose|k: int| 0 <= k < all.len() && all[k] == stat;
    assert(stat_says(all[k], entries[i], language, texts));
}

/// Every achievement of a schema is what some entry of a `bits` container says, in the
/// language that was asked for.
pub proof fn achievements_are_what_their_entries_say(
    root: Node,
    app_id: u32,
    language: Seq<char>,
    texts: Map<u32, Seq<char>>,
    k: int,
)
    requires
        0 <= k < schema_of(root, app_id, language, texts).achievements.len(),
    ensures
        ({
            let entries = app_part(root, app_id).child("stats"@).children;
            let achievement = schema_of(root, app_id, language, texts).achievements[k];
            exists|i: int, j: int, b: int|
                {
                    &&& 0 <= i < entries.len()
                    &&& stat_type(entries[i]) is Achievements || stat_type(
                        entries[i],
                    ) is GroupAchievements
                    &&& 0 <= j < entries[i].all("bits"@).len()
                    &&& 0 <= b < entries[i].all("bits"@)[j].children.len()
                    &&& achievement_says(
                        achievement,
                        #[trigger] entries[i].all("bits"@)[j].children[b],
                        language,
                        texts,
                    )
                }
        }),
{
    let entries = app_part(root, app_id).child("stats"@).children;
    let achievement = schema_of(root, app_id, language, texts).achievements[k];
    let (i, n) = achievement_has_entry(entries, language, texts, k);
    let blocks = entries[i].all("bits"@);
    let (j, m) = achievement_has_block(blocks, language, texts, n);
    let b = achievement_has_bit(blocks[j].children, language, texts, m);
    integers_fit(blocks[j].children[b].child("permission"@), 0);
    assert(achievement_says(achievement, entries[i].all("bits"@)[j].children[b], language, texts));
}

proof fn achievement_has_entry(
    list: Seq<Node>,
    language: Seq<char>,
    texts: Map<u32, Seq<char>>,
    k: int,
) -> (r: (int, int))
    requires
        0 <= k < achievements_in(list, language, texts).len(),
    ensures
        0 <= r.0 < list.len(),
        stat_type(list[r.0]) is Achievements || stat_type(list[r.0]) is GroupAchievements,
        0 <= r.1 < achievements_in_all(list[r.0].all("bits"@), language, texts).len(),
        achievements_in(list, language, texts)[k] == achievements_in_all(
            list[r.0].all("bits"@),
            language,
            texts,
        )[r.1],
    decreases list.len(),
{
    let before = achievements_in(list.drop_last(), language, texts);
    if k < before.len() {
        achievement_has_entry(list.drop_last(), language, texts, k)
    } else {
        (list.len() - 1, k - before.len())
    }
}

proof fn achievement_has_block(
    blocks: Seq<Node>,
    language: Seq<char>,
    texts: Map<u32, Seq<char>>,
    k: int,
) -> (r: (int, int))
    requires
        0 <= k < achievements_in_all(blocks, language, texts).len(),
    ensures
        0 <= r.0 < blocks.len(),
        0 <= r.1 < achievements_in_bits(blocks[r.0].children, language, texts).len(),
        achievements_in_all(blocks, language, texts)[k] == achievements_in_bits(
            blocks[r.0].children,
            language,
            texts,
        )[r.1],
    decreases blocks.len(),
{
    let before = achievements_in_all(blocks.drop_last(), language, texts);
    if k < before.len() {
        achievement_has_block(blocks.drop_last(), language, texts, k)
    } else {
        (blocks.len() - 1, k - before.len())
    }
}

proof fn achievement_has_bit(
    list: Seq<Node>,
    language: Seq<char>,
    texts: Map<u32, Seq<char>>,
    k: int,
) -> (i: int)
    requires
        0 <= k < achievements_in_bits(list, language, texts).len(),
    ensures
        0 <= i < list.len(),
        achievement_of(list[i], language, texts) == Some(
            achievements_in_bits(list, language, texts)[k],
        ),
    decreases list.len(),
{
    let before = achievements_in_bits(list.drop_last(), language, texts);
    if k < before.len() {
        achievement_has_bit(list.drop_last(), language, texts, k)
    } else {
        list.len() - 1
    }
}

/// Every entry of every `bits` container of an achievement block that has an id is in
/// the schema, and with it what it says in the language that was asked for.
pub proof fn bits_are_read_in_the_users_language(
    root: Node,
    app_id: u32,
    language: Seq<char>,
    texts: Map<u32, Seq<char>>,
    i: int,
    j: int,
    b: int,
)
    requires
        ({
            let entries = app_part(root, app_id).child("stats"@).children;
            let blocks = entries[i].all("bits"@);
            &&& 0 <= i < entries.len()
            &&& stat_type(entries[i]) is Achievements || stat_type(entries[i]) is GroupAchievements
            &&& 0 <= j < blocks.len()
            &&& 0 <= b < blocks[j].children.len()
            &&& blocks[j].children[b].child("name"@).text_or(Seq::empty(), texts).len() > 0
        }),
    ensures
        ({
            let all = schema_of(root, app_id, language, texts).achievements;
            let bit = app_part(root, app_id).child("stats"@).children[i].all(
                "bits"@,
            )[j].children[b];
            exists|k: int|
                0 <= k < all.len() && achievement_says(#[trigger] all[k], bit, language, texts)
        }),
{
    let entries = app_part(root, app_id).child("stats"@).children;
    let blocks = entries[i].all("bits"@);
    let bit = blocks[j].children[b];
    let achievement = achievement_of(bit, language, texts)->0;
    integers_fit(bit.child("permission"@), 0);
    achievement_is_in_its_block(blocks[j].children, language, texts, b);
    achievement_is_in_all(blocks, language, texts, j, achievement);
    achievement_is_kept(entries, language, texts, i, achievement);
    let all = schema_of(root, app_id, language, texts).achievements;
    let k = choose|k: int| 0 <= k < all.len() && all[k] == achievement;
    assert(achievement_says(all[k], bit, language, texts));
}

/// A document whose only part holds these entries.
pub open spec fn document_with(app_id: u32, entries: Seq<Node>) -> Node {
    Node {
        name: Seq::empty(),
        value: Datum::Container,
        children: seq![
            Node {
                name: text::decimal(app_id as nat),
                value: Datum::Container,
                children: seq![
                    Node { name: "stats"@, value: Datum::Container, children: entries },
                ],
            },
        ],
    }
}

/// Definitions come in the order of the document: those of its first entries, and
/// behind them those of the others.
pub proof fn definitions_follow_the_document(
    app_id: u32,
    first: Seq<Node>,
    second: Seq<Node>,
    language: Seq<char>,
    texts: Map<u32, Seq<char>>,
)
    ensures
        ({
            let whole = schema_of(document_with(app_id, first + second), app_id, language, texts);
            let a = schema_of(document_with(app_id, first), app_id, language, texts);
            let b = schema_of(document_with(app_id, second), app_id, language, texts);
            &&& whole.stats == a.stats + b.stats
            &&& whole.achievements == a.achievements + b.achievements
        }),
    decreases second.len(),
{
    document_entries(app_id, first + second);
    document_entries(app_id, first);
    document_entries(app_id, second);
    entries_add_up(first, second, language, texts);
}

proof fn document_entries(app_id: u32, entries: Seq<Node>)
    ensures
        app_part(document_with(app_id, entries), app_id).child("stats"@).children == entries,
{
    let root = document_with(app_id, entries);
    lone_part(root, app_id);
    let part = root.children[0];
    assert(part.children[0].name == "stats"@);
}

proof fn entries_add_up(
    first: Seq<Node>,
    second: Seq<Node>,
    language: Seq<char>,
    texts: Map<u32, Seq<char>>,
)
    ensures
        stats_in(first + second, language, texts) == stats_in(first, language, texts) + stats_in(
            second,
            language,
            texts,
        ),
        achievements_in(first + second, language, texts) == achievements_in(first, language, texts)
            + achievements_in(second, language, texts),
    decreases second.len(),
{
    let all = first + second;
    if second.len() == 0 {
        assert(all =~= first);
    } else {
        entries_add_up(first, second.drop_last(), language, texts);
        assert(all.drop_last() =~= first + second.drop_last());
        assert(all.last() == second.last());
        assert(stats_in(all, language, texts) =~= stats_in(first, language, texts) + stats_in(
            second,
            language,
            texts,
        ));
        assert(achievements_in(all, language, texts) =~= achievements_in(first, language, texts)
            + achievements_in(second, language, texts));
    }
}

/// Newer files name the type of an entry, in letters of any case; there the number
/// beside it does not count.
pub proof fn types_are_known_by_name(entry: Node, name: Seq<char>)
    requires
        entry.child("type"@).value == Datum::String(name),
    ensures
        text::same_ignoring_ascii_case(name, "int"@) ==> stat_type(entry) is Integer,
        text::same_ignoring_ascii_case(name, "integer"@) ==> stat_type(entry) is Integer,
        text::same_ignoring_ascii_case(name, "float"@) ==> stat_type(entry) is Float,
        text::same_ignoring_ascii_case(name, "avgrate"@) ==> stat_type(entry) is AverageRate,
        text::same_ignoring_ascii_case(name, "averagerate"@) ==> stat_type(entry) is AverageRate,
        text::same_ignoring_ascii_case(name, "achievements"@) ==> stat_type(entry) is Achievements,
        text::same_ignoring_ascii_case(name, "groupachievements"@) ==> stat_type(
            entry,
        ) is GroupAchievements,
{
    reveal_strlit("invalid");
    reveal_strlit("int");
    reveal_strlit("integer");
    reveal_strlit("float");
    reveal_strlit("avgrate");
    reveal_strlit("averagerate");
    reveal_strlit("achievements");
    reveal_strlit("groupachievements");
    let n = text::ascii_lowered(name);
    assert(n.len() == name.len());
    assert(text::ascii_lowered("invalid"@).len() == 7);
    assert(text::ascii_lowered("int"@).len() == 3);
    assert(text::ascii_lowered("integer"@).len() == 7);
    assert(text::ascii_lowered("float"@).len() == 5);
    assert(text::ascii_lowered("avgrate"@).len() == 7);
    assert(text::ascii_lowered("averagerate"@).len() == 11);
    assert(text::ascii_lowered("achievements"@).len() == 12);
    assert(text::ascii_lowered("groupachievements"@).len() == 17);
    assert(text::ascii_lowered("invalid"@)[2] == 'v');
    assert(text::ascii_lowered("integer"@)[2] == 't');
    assert(text::ascii_lowered("avgrate"@)[2] == 'g');
}

/// Older files number the type of an entry, under `type_int` or under `type`, as a
/// number or as text.
pub proof fn types_are_known_by_number(entry: Node, number: int)
    requires
        !(entry.child("type"@).value is String),
        if entry.child("type_int"@).name.len() > 0 {
            entry.child("type_int"@).i32_or(0) == number
        } else {
            entry.child("type"@).i32_or(0) == number
        },
    ensures
        stat_type(entry) is Integer <==> number == 1,
        stat_type(entry) is Float <==> number == 2,
        stat_type(entry) is AverageRate <==> number == 3,
        stat_type(entry) is Achievements <==> number == 4,
        stat_type(entry) is GroupAchievements <==> number == 5,
{
}

/// An achievement shows its ordinary icon while it is unlocked, and else the one for
/// locked achievements, if the game ships one.
pub proof fn icons_go_by_the_state(normal: Seq<char>, locked: Seq<char>)
    ensures
        chosen_icon(true, normal, locked) == normal,
        locked.len() > 0 ==> chosen_icon(false, normal, locked) == locked,
        locked.len() == 0 ==> chosen_icon(false, normal, locked) == normal,
{
}

/// Looking an achievement up by its id finds the first that has it, and finds none only
/// where there is none.
pub proof fn achievements_are_looked_up_by_id(list: Seq<AchievementModel>, id: Seq<char>)
    ensures
        match first_with_id(list, id) {
            Some(i) => 0 <= i < list.len() && list[i].id == id && forall|k: int|
                0 <= k < i ==> (#[trigger] list[k]).id != id,
            None => forall|k: int| 0 <= k < list.len() ==> (#[trigger] list[k]).id != id,
        },
    decreases list.len(),
{
    if list.len() > 0 {
        let shorter = list.drop_last();
        achievements_are_looked_up_by_id(shorter, id);
        assert forall|k: int| 0 <= k < shorter.len() implies shorter[k] == #[trigger] list[k] by {}
    }
}

/// The names to probe the overload order with are the ids of the statistics of that
/// type, all of them and no others.
pub proof fn stats_are_told_apart_by_type(list: Seq<StatModel>, integer: bool, id: Seq<char>)
    ensures
        stat_ids(list, integer).contains(id) <==> exists|i: int|
            0 <= i < list.len() && (#[trigger] list[i]).id == id && (list[i].bounds is Integer)
                == integer,
    decreases list.len(),
{
    let wanted = |s: StatModel| s.bounds is Integer == integer;
    let ids = stat_ids(list, integer);
    if list.len() == 0 {
        assert(ids.len() == 0) by {
            reveal(Seq::filter);
        }
    } else {
        let shorter = list.drop_last();
        stats_are_told_apart_by_type(shorter, integer, id);
        shorter.lemma_filter_push(list.last(), wanted);
        assert(shorter.push(list.last()) =~= list);
        let before = stat_ids(shorter, integer);
        let last = list[list.len() - 1];
        if wanted(last) {
            assert(ids =~= before.push(last.id));
            if before.contains(id) {
                let k = before.index_of(id);
                assert(ids[k] == id);
            }
            assert(ids[before.len() as int] == last.id);
        } else {
            assert(ids =~= before);
        }
        if exists|i: int|
            0 <= i < shorter.len() && (#[trigger] shorter[i]).id == id && (
            shorter[i].bounds is Integer) == integer {
            let i = choose|i: int|
                0 <= i < shorter.len() && (#[trigger] shorter[i]).id == id && (
                shorter[i].bounds is Integer) == integer;
            assert(list[i] == shorter[i]);
        }
        if exists|i: int|
            0 <= i < list.len() && (#[trigger] list[i]).id == id && (list[i].bounds is Integer)
                == integer {
            let i = choose|i: int|
                0 <= i < list.len() && (#[trigger] list[i]).id == id && (list[i].bounds is Integer)
                    == integer;
            if i < shorter.len() {
                assert(shorter[i] == list[i]);
            }
        }
        if ids.contains(id) {
            let k = ids.index_of(id);
            if k < before.len() {
                assert(before[k] == id);
            }
        }
    }
}

/// A name that stands for no type, or for none that counts, leaves the type to the number
/// beside it, or else to the number that the name spells.
pub proof fn unknown_names_leave_it_to_the_number(entry: Node, name: Seq<char>, number: int)
    requires
        entry.child("type"@).value == Datum::String(name),
        !text::same_ignoring_ascii_case(name, "int"@),
        !text::same_ignoring_ascii_case(name, "integer"@),
        !text::same_ignoring_ascii_case(name, "float"@),
        !text::same_ignoring_ascii_case(name, "avgrate"@),
        !text::same_ignoring_ascii_case(name, "averagerate"@),
        !text::same_ignoring_ascii_case(name, "achievements"@),
        !text::same_ignoring_ascii_case(name, "groupachievements"@),
        if entry.child("type_int"@).name.len() > 0 {
            entry.child("type_int"@).i32_or(0) == number
        } else {
            text::read_i32(text::trimmed(name)) == Some(number)
        },
    ensures
        stat_type(entry) is Integer <==> number == 1,
        stat_type(entry) is Float <==> number == 2,
        stat_type(entry) is AverageRate <==> number == 3,
        stat_type(entry) is Achievements <==> number == 4,
        stat_type(entry) is GroupAchievements <==> number == 5,
{
}

proof fn blocks_add_up(
    a: Seq<Node>,
    b: Seq<Node>,
    language: Seq<char>,
    texts: Map<u32, Seq<char>>,
)
    ensures
        achievements_in_all(a + b, language, texts) == achievements_in_all(a, language, texts)
            + achievements_in_all(b, language, texts),
    decreases b.len(),
{
    if b.len() == 0 {
        assert(a + b =~= a);
    } else {
        blocks_add_up(a, b.drop_last(), language, texts);
        assert((a + b).drop_last() =~= a + b.drop_last());
        assert((a + b).last() == b.last());
    }
    assert(achievements_in_all(a + b, language, texts) =~= achievements_in_all(a, language, texts)
        + achievements_in_all(b, language, texts));
}

proof fn bits_add_up(a: Seq<Node>, b: Seq<Node>, language: Seq<char>, texts: Map<u32, Seq<char>>)
    ensures
        achievements_in_bits(a + b, language, texts) == achievements_in_bits(a, language, texts)
            + achievements_in_bits(b, language, texts),
    decreases b.len(),
{
    if b.len() == 0 {
        assert(a + b =~= a);
    } else {
        bits_add_up(a, b.drop_last(), language, texts);
        assert((a + b).drop_last() =~= a + b.drop_last());
        assert((a + b).last() == b.last());
    }
    assert(achievements_in_bits(a + b, language, texts) =~= achievements_in_bits(a, language, texts)
        + achievements_in_bits(b, language, texts));
}

/// Within an entry the achievements come in the order of its `bits` containers, and within
/// one of these in the order of what it holds.
pub proof fn achievements_follow_their_bits(
    app_id: u32,
    entry: Node,
    before: Seq<Node>,
    block: Node,
    after: Seq<Node>,
    first: Seq<Node>,
    second: Seq<Node>,
    language: Seq<char>,
    texts: Map<u32, Seq<char>>,
)
    requires
        stat_type(entry) is Achievements || stat_type(entry) is GroupAchievements,
        entry.all("bits"@) == before + seq![block] + after,
        block.children == first + second,
    ensures
        schema_of(document_with(app_id, seq![entry]), app_id, language, texts).achievements
            == achievements_in_all(before, language, texts) + achievements_in_bits(
            first,
            language,
            texts,
        ) + achievements_in_bits(second, language, texts) + achievements_in_all(
            after,
            language,
            texts,
        ),
{
    let one = seq![entry];
    document_entries(app_id, one);
    assert(one.drop_last() =~= Seq::<Node>::empty());
    assert(one.last() == entry);
    assert(achievements_in(Seq::<Node>::empty(), language, texts).len() == 0);
    let blocks = entry.all("bits"@);
    assert(achievements_in(one, language, texts) =~= achievements_in_all(blocks, language, texts));
    let single = seq![block];
    blocks_add_up(before + single, after, language, texts);
    blocks_add_up(before, single, language, texts);
    bits_add_up(first, second, language, texts);
    assert(single.drop_last() =~= Seq::<Node>::empty());
    assert(single.last() == block);
    assert(achievements_in_all(Seq::<Node>::empty(), language, texts).len() == 0);
    assert(achievements_in_all(single, language, texts) =~= achievements_in_bits(
        block.children,
        language,
        texts,
    ));
    assert(achievements_in_all(blocks, language, texts) =~= achievements_in_all(
        before,
        language,
        texts,
    ) + achievements_in_bits(first, language, texts) + achievements_in_bits(second, language, texts)
        + achievements_in_all(after, language, texts));
}

/// The names to probe with come in the order of the statistics.
pub proof fn probe_names_follow_the_stats(a: Seq<StatModel>, b: Seq<StatModel>, integer: bool)
    ensures
        stat_ids(a + b, integer) == stat_ids(a, integer) + stat_ids(b, integer),
{
    let wanted = |s: StatModel| s.bounds is Integer == integer;
    Seq::filter_distributes_over_add(a, b, wanted);
    assert(stat_ids(a + b, integer) =~= stat_ids(a, integer) + stat_ids(b, integer));
}

} // verus!
