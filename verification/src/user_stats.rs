//! `ISteamUserStats013`: which slots read and write achievements and
//! statistics.

use vstd::prelude::*;

use crate::client;
use crate::error::Error;
use crate::fs_path::FsPath;
use crate::interfaces::steam_user_stats as slot;
use crate::text;

verus! {

/// Which of an overloaded pair comes first in the vtable.
///
/// `GetStat`, `SetStat` and `GetUserStat` are each declared twice in
/// `ISteamUserStats`, once for `int32` and once for `float`. The Itanium C++
/// ABI lays overloads out in declaration order (int first); MSVC reverses
/// them within an overload group.
#[derive(Debug, Clone, Copy, PartialEq, Eq, Structural)]
pub enum OverloadOrder {
    /// Itanium / GCC: `int32` occupies the lower slot. Expected on Linux.
    IntThenFloat,
    /// MSVC: `float` occupies the lower slot. Expected on Windows.
    FloatThenInt,
}

/// How far behind the first slot of its group the overload of a type lies.
pub open spec fn overload_offset(order: OverloadOrder, integer: bool) -> nat {
    if integer == (order == OverloadOrder::IntThenFloat) {
        0
    } else {
        1
    }
}

impl OverloadOrder {
    /// The place of the `int32` overload in its group.
    pub fn int_offset(self) -> (r: usize)
        ensures
            r == overload_offset(self, true),
    {
        match self {
            OverloadOrder::IntThenFloat => 0,
            OverloadOrder::FloatThenInt => 1,
        }
    }

    /// The place of the `float` overload in its group.
    pub fn float_offset(self) -> (r: usize)
        ensures
            r == overload_offset(self, false),
    {
        1 - self.int_offset()
    }

    /// The slot that reads a statistic of that type.
    pub fn get_stat_slot(self, integer: bool) -> (r: usize)
        ensures
            r == slot::GET_STAT_BASE + overload_offset(self, integer),
    {
        if integer {
            slot::GET_STAT_BASE + self.int_offset()
        } else {
            slot::GET_STAT_BASE + self.float_offset()
        }
    }

    /// The slot that writes a statistic of that type.
    pub fn set_stat_slot(self, integer: bool) -> (r: usize)
        ensures
            r == slot::SET_STAT_BASE + overload_offset(self, integer),
    {
        if integer {
            slot::SET_STAT_BASE + self.int_offset()
        } else {
            slot::SET_STAT_BASE + self.float_offset()
        }
    }
}

/// The slot that unlocks an achievement, or locks it.
pub fn set_achievement_slot(unlocked: bool) -> (r: usize)
    ensures
        r == if unlocked {
            slot::SET_ACHIEVEMENT
        } else {
            slot::CLEAR_ACHIEVEMENT
        },
{
    if unlocked {
        slot::SET_ACHIEVEMENT
    } else {
        slot::CLEAR_ACHIEVEMENT
    }
}

/// Whatever the order of the overloads, the slots through which statistics and
/// achievements are read and written are among those that are checked first.
pub proof fn stat_calls_are_checked(order: OverloadOrder, integer: bool)
    ensures
        ({
            let checked = client::user_stats_slot_list();
            let offset = overload_offset(order, integer);
            &&& client::is_among(checked, (slot::GET_STAT_BASE + offset) as usize)
            &&& client::is_among(checked, (slot::SET_STAT_BASE + offset) as usize)
            &&& client::is_among(checked, slot::GET_ACHIEVEMENT)
            &&& client::is_among(checked, slot::SET_ACHIEVEMENT)
            &&& client::is_among(checked, slot::CLEAR_ACHIEVEMENT)
            &&& client::is_among(checked, slot::GET_ACHIEVEMENT_AND_UNLOCK_TIME)
            &&& client::is_among(checked, slot::STORE_STATS)
            &&& client::is_among(checked, slot::GET_NUM_ACHIEVEMENTS)
            &&& client::is_among(checked, slot::REQUEST_USER_STATS)
            &&& client::is_among(checked, slot::RESET_ALL_STATS)
            &&& client::is_among(checked, slot::GET_ACHIEVEMENT_DISPLAY_ATTRIBUTE)
            &&& client::is_among(checked, slot::GET_ACHIEVEMENT_NAME)
        }),
{
    let checked = client::user_stats_slot_list();
    assert(checked[0].index == slot::GET_STAT_BASE);
    assert(checked[1].index == slot::GET_STAT_BASE + 1);
    assert(checked[2].index == slot::SET_STAT_BASE);
    assert(checked[3].index == slot::SET_STAT_BASE + 1);
    assert(checked[4].index == slot::GET_ACHIEVEMENT);
    assert(checked[5].index == slot::SET_ACHIEVEMENT);
    assert(checked[6].index == slot::CLEAR_ACHIEVEMENT);
    assert(checked[7].index == slot::GET_ACHIEVEMENT_AND_UNLOCK_TIME);
    assert(checked[8].index == slot::STORE_STATS);
    assert(checked[9].index == slot::GET_NUM_ACHIEVEMENTS);
    assert(checked[10].index == slot::REQUEST_USER_STATS);
    assert(checked[11].index == slot::RESET_ALL_STATS);
    assert(checked[12].index == slot::GET_ACHIEVEMENT_DISPLAY_ATTRIBUTE);
    assert(checked[13].index == slot::GET_ACHIEVEMENT_NAME);
}

/// How confident we are in the overload order currently in use.
#[derive(Debug, PartialEq, Eq)]
pub enum OrderConfidence {
    /// Proven against the running library by probing a stat of known type.
    Confirmed,
    /// No integer stat was available to probe with, so the ABI default is in
    /// use. Reads are still safe; writes should be treated with more care.
    Assumed(&'static str),
}

/// What an [`OrderConfidence`] says.
pub enum ConfidenceModel {
    Confirmed,
    Assumed(Seq<char>),
}

impl View for OrderConfidence {
    type V = ConfidenceModel;

    open spec fn view(&self) -> ConfidenceModel {
        match *self {
            OrderConfidence::Confirmed => ConfidenceModel::Confirmed,
            OrderConfidence::Assumed(reason) => ConfidenceModel::Assumed(reason@),
        }
    }
}

impl Clone for OrderConfidence {
    fn clone(&self) -> (r: Self)
        ensures
            r@ == self@,
    {
        match self {
            OrderConfidence::Confirmed => OrderConfidence::Confirmed,
            OrderConfidence::Assumed(reason) => OrderConfidence::Assumed(reason),
        }
    }
}

/// Result of [`UserStats::resolve_overload_order`].
#[derive(Debug, PartialEq, Eq)]
pub struct OrderResolution {
    pub order: OverloadOrder,
    pub confidence: OrderConfidence,
    /// The stat used to prove the order, when one was found.
    pub probe_stat: Option<String>,
}

/// What an [`OrderResolution`] says.
pub struct ResolutionModel {
    pub order: OverloadOrder,
    pub confidence: ConfidenceModel,
    pub probe_stat: Option<Seq<char>>,
}

impl View for OrderResolution {
    type V = ResolutionModel;

    open spec fn view(&self) -> ResolutionModel {
        ResolutionModel {
            order: self.order,
            confidence: self.confidence@,
            probe_stat: match self.probe_stat {
                Some(name) => Some(name@),
                None => None,
            },
        }
    }
}

/// What to do next about the overload order.
pub enum ProbeStep {
    /// Call both `GetStat` slots with this name and see which of them accept
    /// it.
    Ask { name: String },
    /// The order is settled.
    Done { resolution: OrderResolution },
}

/// What a [`ProbeStep`] says.
pub enum StepModel {
    Ask { name: Seq<char> },
    Done { resolution: ResolutionModel },
}

impl View for ProbeStep {
    type V = StepModel;

    open spec fn view(&self) -> StepModel {
        match *self {
            ProbeStep::Ask { name } => StepModel::Ask { name: name@ },
            ProbeStep::Done { resolution } => StepModel::Done { resolution: resolution@ },
        }
    }
}

/// The names that can be handed to Steam, each with its type.
pub open spec fn typed(names: Seq<Seq<char>>, integer: bool) -> Seq<(Seq<char>, bool)>
    decreases names.len(),
{
    if names.len() == 0 {
        Seq::empty()
    } else if text::without_nul(names.last()) {
        typed(names.drop_last(), integer).push((names.last(), integer))
    } else {
        typed(names.drop_last(), integer)
    }
}

/// The stats to probe with, in order. Integer stats first: they are far more
/// common than float ones.
pub open spec fn questions(integers: Seq<Seq<char>>, floats: Seq<Seq<char>>) -> Seq<
    (Seq<char>, bool),
> {
    typed(integers, true) + typed(floats, false)
}

/// Where the first answer stands in which exactly one slot accepted the stat.
/// Both or neither means Steam is not type-checking that stat, which is seen
/// when a stat has never been written.
pub open spec fn first_decisive(answers: Seq<(bool, bool)>) -> Option<int>
    decreases answers.len(),
{
    if answers.len() == 0 {
        None
    } else {
        match first_decisive(answers.drop_last()) {
            Some(i) => Some(i),
            None => if answers.last().0 != answers.last().1 {
                Some(answers.len() - 1)
            } else {
                None
            },
        }
    }
}

/// The order behind a decisive answer: an integer stat is accepted by the
/// `int32` overload, a float stat by the other.
pub open spec fn order_shown(integer: bool, first_accepts: bool) -> OverloadOrder {
    if integer == first_accepts {
        OverloadOrder::IntThenFloat
    } else {
        OverloadOrder::FloatThenInt
    }
}

/// What follows from the answers so far. Only as many answers count as there
/// are stats to probe with.
pub open spec fn resolve(
    integers: Seq<Seq<char>>,
    floats: Seq<Seq<char>>,
    answers: Seq<(bool, bool)>,
) -> StepModel {
    let asked = questions(integers, floats);
    let given = if answers.len() < asked.len() {
        answers
    } else {
        answers.take(asked.len() as int)
    };
    match first_decisive(given) {
        Some(i) => StepModel::Done {
            resolution: ResolutionModel {
                order: order_shown(asked[i].1, answers[i].0),
                confidence: ConfidenceModel::Confirmed,
                probe_stat: Some(asked[i].0),
            },
        },
        None => if answers.len() < asked.len() {
            StepModel::Ask { name: asked[answers.len() as int].0 }
        } else {
            StepModel::Done {
                resolution: ResolutionModel {
                    order: OverloadOrder::IntThenFloat,
                    confidence: ConfidenceModel::Assumed(
                        if integers.len() == 0 && floats.len() == 0 {
                            "this app declares no numeric stats"@
                        } else {
                            "no stat produced an unambiguous result"@
                        },
                    ),
                    probe_stat: None,
                },
            }
        },
    }
}

/// What a list of typed names says.
pub open spec fn typed_views(list: Seq<(String, bool)>) -> Seq<(Seq<char>, bool)> {
    list.map_values(|q: (String, bool)| (q.0@, q.1))
}

fn push_typed(out: &mut Vec<(String, bool)>, names: &Vec<String>, integer: bool)
    ensures
        typed_views(final(out)@) == typed_views(old(out)@) + typed(
            text::texts_of(names@),
            integer,
        ),
{
    let ghost start = typed_views(out@);
    let ghost all = text::texts_of(names@);
    assert(start + typed(all.take(0), integer) == start);
    for i in 0..names.len()
        invariant
            all == text::texts_of(names@),
            typed_views(out@) == start + typed(all.take(i as int), integer),
    {
        let ghost was = typed_views(out@);
        assert(all.take(i + 1).drop_last() == all.take(i as int));
        assert(all.take(i + 1).last() == names@[i as int]@);
        if text::is_c_text(names[i].as_str()) {
            out.push((names[i].clone(), integer));
            assert(typed_views(out@) == was.push((names@[i as int]@, integer)));
        }
        assert(typed_views(out@) =~= start + typed(all.take(i + 1), integer));
    }
    assert(all.take(all.len() as int) == all);
}

/// What follows from the answers so far.
fn next_probe(
    integer_stat_names: &Vec<String>,
    float_stat_names: &Vec<String>,
    answers: &Vec<(bool, bool)>,
) -> (r: ProbeStep)
    ensures
        r@ == resolve(
            text::texts_of(integer_stat_names@),
            text::texts_of(float_stat_names@),
            answers@,
        ),
{
    let mut asked: Vec<(String, bool)> = Vec::new();
    assert(typed_views(asked@) == Seq::<(Seq<char>, bool)>::empty());
    push_typed(&mut asked, integer_stat_names, true);
    push_typed(&mut asked, float_stat_names, false);
    let ghost integers = text::texts_of(integer_stat_names@);
    let ghost floats = text::texts_of(float_stat_names@);
    let ghost listed = questions(integers, floats);
    assert(typed_views(asked@) =~= listed);
    let count = if answers.len() < asked.len() {
        answers.len()
    } else {
        asked.len()
    };
    assert(answers@.take(answers@.len() as int) == answers@);
    for i in 0..count
        invariant
            count <= answers@.len(),
            count <= asked@.len(),
            count == answers@.len() || count == asked@.len(),
            answers@.take(answers@.len() as int) == answers@,
            typed_views(asked@) == listed,
            integers == text::texts_of(integer_stat_names@),
            floats == text::texts_of(float_stat_names@),
            listed == questions(integers, floats),
            first_decisive(answers@.take(i as int)) is None,
    {
        let ghost upto = answers@.take(i + 1);
        assert(upto.drop_last() == answers@.take(i as int));
        let (first, second) = answers[i];
        if first != second {
            let kind_is_int = asked[i].1;
            let order = if kind_is_int == first {
                OverloadOrder::IntThenFloat
            } else {
                OverloadOrder::FloatThenInt
            };
            proof {
                assert(listed[i as int] == (asked@[i as int].0@, kind_is_int));
                first_decisive_stays(answers@.take(count as int), i + 1);
                assert(answers@.take(count as int).take(i + 1) == upto);
            }
            return ProbeStep::Done {
                resolution: OrderResolution {
                    order,
                    confidence: OrderConfidence::Confirmed,
                    probe_stat: Some(asked[i].0.clone()),
                },
            };
        }
    }
    if count < asked.len() {
        assert(listed[count as int].0 == asked@[count as int].0@);
        return ProbeStep::Ask { name: asked[count].0.clone() };
    }
    let reason = if integer_stat_names.len() == 0 && float_stat_names.len() == 0 {
        "this app declares no numeric stats"
    } else {
        "no stat produced an unambiguous result"
    };
    ProbeStep::Done {
        resolution: OrderResolution {
            order: OverloadOrder::IntThenFloat,
            confidence: OrderConfidence::Assumed(reason),
            probe_stat: None,
        },
    }
}

proof fn first_decisive_stays(answers: Seq<(bool, bool)>, n: int)
    requires
        0 <= n <= answers.len(),
        first_decisive(answers.take(n)) is Some,
    ensures
        first_decisive(answers) == first_decisive(answers.take(n)),
    decreases answers.len() - n,
{
    if n < answers.len() {
        assert(answers.take(n + 1).drop_last() == answers.take(n));
        first_decisive_stays(answers, n + 1);
    } else {
        assert(answers.take(n) == answers);
    }
}

proof fn first_decisive_bounds(answers: Seq<(bool, bool)>)
    ensures
        first_decisive(answers) matches Some(i) ==> 0 <= i < answers.len() && answers[i].0
            != answers[i].1,
        first_decisive(answers) is None ==> forall|i: int|
            0 <= i < answers.len() ==> (#[trigger] answers[i]).0 == answers[i].1,
    decreases answers.len(),
{
    if answers.len() > 0 {
        first_decisive_bounds(answers.drop_last());
        assert forall|i: int| first_decisive(answers) is None && 0 <= i < answers.len() implies (
        #[trigger] answers[i]).0 == answers[i].1 by {
            if i < answers.len() - 1 {
                assert(answers.drop_last()[i] == answers[i]);
            }
        }
    }
}

/// An answer that Steam can give, where `order` is the real one: it checks the
/// type and lets only the matching overload accept the stat, or it does not
/// check.
pub open spec fn honest_answer(order: OverloadOrder, integer: bool, answer: (bool, bool)) -> bool {
    answer.0 != answer.1 ==> answer.0 == (overload_offset(order, integer) == 0)
}

/// Where Steam answers honestly, no order but the real one is ever confirmed;
/// and once a stat was type-checked, the real one is.
pub proof fn only_the_real_order_is_confirmed(
    order: OverloadOrder,
    integers: Seq<Seq<char>>,
    floats: Seq<Seq<char>>,
    answers: Seq<(bool, bool)>,
)
    requires
        answers.len() <= questions(integers, floats).len(),
        forall|i: int|
            0 <= i < answers.len() ==> honest_answer(
                order,
                questions(integers, floats)[i].1,
                #[trigger] answers[i],
            ),
    ensures
        resolve(integers, floats, answers) matches StepModel::Done { resolution }
            ==> resolution.confidence is Confirmed ==> resolution.order == order,
        (exists|i: int| 0 <= i < answers.len() && (#[trigger] answers[i]).0 != answers[i].1) ==> (
        resolve(integers, floats, answers) matches StepModel::Done { resolution }
            && resolution.confidence is Confirmed && resolution.order == order),
{
    let asked = questions(integers, floats);
    let given = if answers.len() < asked.len() {
        answers
    } else {
        answers.take(asked.len() as int)
    };
    assert(given == answers);
    first_decisive_bounds(answers);
    if let Some(i) = first_decisive(answers) {
        assert(honest_answer(order, asked[i].1, answers[i]));
    }
}

/// Asking one stat after another comes to an end: there is always a next stat
/// to ask about, or the order is settled, at the latest when all were asked.
pub proof fn probing_ends(
    integers: Seq<Seq<char>>,
    floats: Seq<Seq<char>>,
    answers: Seq<(bool, bool)>,
)
    requires
        answers.len() >= integers.len() + floats.len(),
    ensures
        resolve(integers, floats, answers) is Done,
{
    typed_len(integers, true);
    typed_len(floats, false);
}

proof fn typed_len(names: Seq<Seq<char>>, integer: bool)
    ensures
        typed(names, integer).len() <= names.len(),
    decreases names.len(),
{
    if names.len() > 0 {
        typed_len(names.drop_last(), integer);
    }
}

/// How the statistics of one session are to be read and written.
pub struct UserStats {
    order: OverloadOrder,
    confidence: OrderConfidence,
}

/// What [`UserStats`] say.
pub struct UserStatsModel {
    pub order: OverloadOrder,
    pub confidence: ConfidenceModel,
}

impl View for UserStats {
    type V = UserStatsModel;

    closed spec fn view(&self) -> UserStatsModel {
        UserStatsModel { order: self.order, confidence: self.confidence@ }
    }
}

impl UserStats {
    /// Start with a session's stats interface, verifying the unambiguous vtable
    /// slots before anything is called through them: `owners` are the shared
    /// objects that the functions of [`client::user_stats_slots`] lie in.
    pub fn new(library: &FsPath, owners: &Vec<Option<FsPath>>) -> (r: Result<UserStats, Error>)
        ensures
            match client::first_problem(
                "ISteamUserStats013"@,
                library@,
                client::user_stats_slot_list(),
                client::owner_views(owners@),
            ) {
                Some(problem) => r matches Err(e) && e@ == problem,
                None => r matches Ok(stats) && stats@ == (UserStatsModel {
                    order: OverloadOrder::IntThenFloat,
                    confidence: ConfidenceModel::Assumed("not yet probed"@),
                }),
            },
    {
        client::verify_slots("ISteamUserStats013", library, &client::user_stats_slots(), owners)?;
        // Start from the ABI-derived expectation; callers should follow up
        // with `resolve_overload_order` once a schema is available.
        Ok(
            UserStats {
                order: OverloadOrder::IntThenFloat,
                confidence: OrderConfidence::Assumed("not yet probed"),
            },
        )
    }

    /// Go on with a previously resolved overload order.
    ///
    /// Verification and probing are one-time costs; this exists so a UI can
    /// start afresh per interaction without paying for them on every frame.
    pub fn reuse(order: OverloadOrder, confidence: OrderConfidence) -> (r: UserStats)
        ensures
            r@ == (UserStatsModel { order, confidence: confidence@ }),
    {
        UserStats { order, confidence }
    }

    /// The overload order in use.
    pub fn order(&self) -> (r: OverloadOrder)
        ensures
            r == self@.order,
    {
        self.order
    }

    /// How confident we are in it.
    pub fn confidence(&self) -> (r: &OrderConfidence)
        ensures
            r@ == self@.confidence,
    {
        &self.confidence
    }

    /// Determine the real overload order by probing stats of known type, given the
    /// answers so far to the stats that were asked about: whether the first and
    /// whether the second `GetStat` slot accepted the stat.
    ///
    /// Steam type-checks `GetStat`: it rejects a stat whose declared type does
    /// not match the overload, so asking for an integer stat through the
    /// `float` overload returns false. The discriminator is the *slot*, not the
    /// pointer type passed in. A callee cannot see what kind of pointer the caller
    /// supplied, so both slots of the group are called with a stat whose type the
    /// schema already gives us: for an `int` stat, the slot returning true is the
    /// `int32` overload.
    ///
    /// This reads only. Nothing is written, so an inconclusive result is
    /// harmless. Use it once the app's stats have arrived, since a stat that
    /// has never been written may be accepted by both slots.
    pub fn resolve_overload_order(
        &mut self,
        integer_stat_names: &Vec<String>,
        float_stat_names: &Vec<String>,
        answers: &Vec<(bool, bool)>,
    ) -> (r: ProbeStep)
        ensures
            r@ == resolve(
                text::texts_of(integer_stat_names@),
                text::texts_of(float_stat_names@),
                answers@,
            ),
            final(self)@ == match r@ {
                StepModel::Ask { .. } => old(self)@,
                StepModel::Done { resolution } => UserStatsModel {
                    order: resolution.order,
                    confidence: resolution.confidence,
                },
            },
    {
        let step = next_probe(integer_stat_names, float_stat_names, answers);
        if let ProbeStep::Done { resolution } = &step {
            self.order = resolution.order;
            self.confidence = resolution.confidence.clone();
        }
        step
    }
}

/// The two overloads of a group lie in its two slots, one each: on the expected order the
/// one for integers comes first, on the other the one for real numbers.
pub proof fn overloads_have_a_slot_each(order: OverloadOrder)
    ensures
        overload_offset(order, true) + overload_offset(order, false) == 1,
        overload_offset(OverloadOrder::IntThenFloat, true) == 0,
        overload_offset(OverloadOrder::FloatThenInt, false) == 0,
{
}

proof fn typed_of_a_sum(a: Seq<Seq<char>>, b: Seq<Seq<char>>, integer: bool)
    ensures
        typed(a + b, integer) == typed(a, integer) + typed(b, integer),
    decreases b.len(),
{
    if b.len() == 0 {
        assert(a + b =~= a);
        assert(typed(a, integer) + typed(b, integer) =~= typed(a, integer));
    } else {
        typed_of_a_sum(a, b.drop_last(), integer);
        assert((a + b).drop_last() =~= a + b.drop_last());
        assert((a + b).last() == b.last());
        assert(typed(a + b, integer) =~= typed(a, integer) + typed(b, integer));
    }
}

/// Steam is asked about every statistic whose name can be handed to it, in the order they
/// are given in, and about those of integers before those of real numbers.
pub proof fn integers_are_asked_about_first(
    before: Seq<Seq<char>>,
    name: Seq<char>,
    after: Seq<Seq<char>>,
    others: Seq<Seq<char>>,
)
    ensures
        text::without_nul(name) ==> {
            &&& questions(before + seq![name] + after, others) == questions(before, Seq::empty())
                + seq![(name, true)] + questions(after, others)
            &&& questions(others, before + seq![name] + after) == questions(others, before) + seq![
                (name, false),
            ] + questions(Seq::empty(), after)
        },
        !text::without_nul(name) ==> {
            &&& questions(before + seq![name] + after, others) == questions(before + after, others)
            &&& questions(others, before + seq![name] + after) == questions(others, before + after)
        },
        questions(Seq::empty(), Seq::empty()) == Seq::<(Seq<char>, bool)>::empty(),
{
    let one = seq![name];
    let none = Seq::<Seq<char>>::empty();
    assert(one.drop_last() =~= none);
    assert(one.last() == name);
    assert(typed(none, true).len() == 0 && typed(none, false).len() == 0);
    if text::without_nul(name) {
        assert(typed(one, true) =~= seq![(name, true)]);
        assert(typed(one, false) =~= seq![(name, false)]);
    } else {
        assert(typed(one, true) =~= Seq::empty());
        assert(typed(one, false) =~= Seq::empty());
    }
    typed_of_a_sum(before + one, after, true);
    typed_of_a_sum(before, one, true);
    typed_of_a_sum(before, after, true);
    typed_of_a_sum(before + one, after, false);
    typed_of_a_sum(before, one, false);
    typed_of_a_sum(before, after, false);
    if text::without_nul(name) {
        assert(questions(before + one + after, others) =~= questions(before, none) + seq![
            (name, true),
        ] + questions(after, others));
        assert(questions(others, before + one + after) =~= questions(others, before) + seq![
            (name, false),
        ] + questions(none, after));
    } else {
        assert(questions(before + one + after, others) =~= questions(before + after, others));
        assert(questions(others, before + one + after) =~= questions(others, before + after));
    }
}

/// As long as no answer tells the overloads apart, the next statistic is asked about. The
/// first answer that does settles the order: the slot that takes an integer is the one for
/// integers, and the slot that takes a real number is the other.
pub proof fn the_first_clear_answer_settles(
    integers: Seq<Seq<char>>,
    floats: Seq<Seq<char>>,
    answers: Seq<(bool, bool)>,
    i: int,
)
    requires
        0 <= i <= answers.len(),
        forall|j: int| 0 <= j < i ==> (#[trigger] answers[j]).0 == answers[j].1,
    ensures
        ({
            let asked = questions(integers, floats);
            let step = resolve(integers, floats, answers);
            &&& i == answers.len() && i < asked.len() ==> step == (StepModel::Ask {
                name: asked[i].0,
            })
            &&& i < answers.len() && i < asked.len() && answers[i].0 != answers[i].1 ==> {
                &&& step matches StepModel::Done { resolution }
                &&& resolution.confidence is Confirmed
                &&& resolution.probe_stat == Some(asked[i].0)
                &&& resolution.order is IntThenFloat <==> (if asked[i].1 {
                    answers[i].0
                } else {
                    answers[i].1
                })
            }
            &&& i >= asked.len() ==> {
                &&& step matches StepModel::Done { resolution }
                &&& resolution.confidence is Assumed
                &&& resolution.probe_stat is None
                &&& resolution.order is IntThenFloat
            }
        }),
{
    let asked = questions(integers, floats);
    let given = if answers.len() < asked.len() {
        answers
    } else {
        answers.take(asked.len() as int)
    };
    if i < given.len() {
        let upto = given.take(i + 1);
        assert(upto.drop_last() =~= given.take(i));
        first_decisive_bounds(given.take(i));
        if let Some(k) = first_decisive(given.take(i)) {
            assert(given.take(i)[k] == answers[k]);
        }
        assert(upto.last() == answers[i]);
        if answers[i].0 != answers[i].1 {
            first_decisive_stays(given, i + 1);
        }
    } else {
        first_decisive_bounds(given);
        if let Some(k) = first_decisive(given) {
            assert(given[k] == answers[k]);
        }
    }
}

/// Where the order could not be settled, the reason is that there are no statistics, or
/// that none of them told the overloads apart.
pub proof fn unsettled_orders_have_a_reason(
    integers: Seq<Seq<char>>,
    floats: Seq<Seq<char>>,
    answers: Seq<(bool, bool)>,
)
    ensures
        resolve(integers, floats, answers) matches StepModel::Done { resolution } ==> (
        resolution.confidence matches ConfidenceModel::Assumed(reason) ==> {
            &&& integers.len() + floats.len() == 0 ==> reason
                == "this app declares no numeric stats"@
            &&& integers.len() + floats.len() > 0 ==> reason
                == "no stat produced an unambiguous result"@
        }),
{
}

} // verus!
