//! Which dialects the cached schema files of a machine are written in.

use vstd::prelude::*;

use crate::text;
use crate::vdf;
use crate::vdf::{Datum, KeyValue, Node};

verus! {

/// A file name that a cached schema may have.
pub open spec fn names_schema(name: Seq<char>) -> bool {
    &&& text::occurs_at(name, "UserGameStatsSchema_"@, 0)
    &&& text::occurs_at(name, ".bin"@, name.len() - 4)
}

/// Whether a file may be a cached schema, going by its name.
pub fn is_schema_file(name: &str) -> (r: bool)
    ensures
        r == names_schema(name@),
{
    proof {
        reveal_strlit(".bin");
    }
    let n = text::chars_of(name);
    let end = text::chars_of(".bin");
    text::starts_with(name, "UserGameStatsSchema_") && n.len() >= end.len() && text::stands_at(
        &n,
        &end,
        n.len() - end.len(),
    )
}

/// Every schema file that the client writes is taken for one.
pub proof fn schema_files_are_known(app_id: u32)
    ensures
        names_schema(crate::paths::schema_file_name(app_id)),
{
    reveal_strlit("UserGameStatsSchema_");
    reveal_strlit(".bin");
    let name = crate::paths::schema_file_name(app_id);
    let front = "UserGameStatsSchema_"@;
    assert(name.subrange(0, front.len() as int) =~= front);
    assert(name.subrange(name.len() - 4, name.len() as int) =~= ".bin"@);
}

/// How an entry of a schema says what type it is of.
#[derive(Debug, Clone, Copy, PartialEq, Eq, Structural)]
pub enum Dialect {
    /// A `type` that is text.
    Name,
    /// A `type_int`.
    TypeInt,
    /// A `type` that is a number.
    Number,
    /// Neither.
    Untyped,
}

impl Dialect {
    /// What a dialect is called in a report.
    pub open spec fn caption(self) -> Seq<char> {
        match self {
            Dialect::Name => "type (string)"@,
            Dialect::TypeInt => "type_int"@,
            Dialect::Number => "type (numeric)"@,
            Dialect::Untyped => "no type node"@,
        }
    }

    /// What a dialect is called in a report.
    pub fn label(self) -> (r: String)
        ensures
            r@ == self.caption(),
    {
        match self {
            Dialect::Name => "type (string)".to_owned(),
            Dialect::TypeInt => "type_int".to_owned(),
            Dialect::Number => "type (numeric)".to_owned(),
            Dialect::Untyped => "no type node".to_owned(),
        }
    }
}

/// What is found out about one entry: its dialect, what it gives as its type, and
/// how many achievements hang off it.
#[derive(Debug, PartialEq, Eq)]
pub struct Finding {
    pub dialect: Dialect,
    pub value: Option<String>,
    pub achievements: usize,
}

/// What a finding says.
pub struct FindingModel {
    pub dialect: Dialect,
    pub value: Option<Seq<char>>,
    pub achievements: nat,
}

impl View for Finding {
    type V = FindingModel;

    open spec fn view(&self) -> FindingModel {
        FindingModel {
            dialect: self.dialect,
            value: text::optional(self.value),
            achievements: self.achievements as nat,
        }
    }
}

/// What a list of findings says.
pub open spec fn finding_models(list: Seq<Finding>) -> Seq<FindingModel> {
    list.map_values(|f: Finding| f@)
}

/// The dialect of an entry.
pub open spec fn dialect_of(entry: Node) -> Dialect {
    if entry.child("type"@).value is String {
        Dialect::Name
    } else if entry.child("type_int"@).is_present() {
        Dialect::TypeInt
    } else if entry.child("type"@).is_present() {
        Dialect::Number
    } else {
        Dialect::Untyped
    }
}

/// What an entry gives as its type: a name in lower case, or a number behind a
/// word for where it was found.
pub open spec fn type_given(entry: Node) -> Option<Seq<char>> {
    match dialect_of(entry) {
        Dialect::Name => Some(text::lowered(entry.child("type"@).value->String_0)),
        Dialect::TypeInt => Some(
            "int:"@ + text::signed_decimal(entry.child("type_int"@).i32_or(-1)),
        ),
        Dialect::Number => Some("num:"@ + text::signed_decimal(entry.child("type"@).i32_or(-1))),
        Dialect::Untyped => None,
    }
}

/// How many children some nodes have together.
pub open spec fn children_of(blocks: Seq<Node>) -> nat
    decreases blocks.len(),
{
    if blocks.len() == 0 {
        0
    } else {
        children_of(blocks.drop_last()) + blocks.last().children.len()
    }
}

/// A number, or the greatest that can be counted to.
pub open spec fn countable(n: nat) -> nat {
    if n < usize::MAX {
        n
    } else {
        usize::MAX as nat
    }
}

/// What is found out about an entry. Achievements nest under repeated `bits` keys.
pub open spec fn finding_of(entry: Node) -> FindingModel {
    FindingModel {
        dialect: dialect_of(entry),
        value: type_given(entry),
        achievements: countable(children_of(entry.all("bits"@))),
    }
}

/// What is found out about the entries of the first part of a document; none where
/// it has no part.
pub open spec fn findings_in(root: Node) -> Option<Seq<FindingModel>> {
    if root.children.len() == 0 {
        None
    } else {
        Some(root.children[0].child("stats"@).children.map_values(|e: Node| finding_of(e)))
    }
}

fn plus(a: usize, b: usize) -> (r: usize)
    ensures
        r == countable((a + b) as nat),
{
    if b <= usize::MAX - a {
        a + b
    } else {
        usize::MAX
    }
}

fn count_achievements(entry: &KeyValue) -> (r: usize)
    ensures
        r == countable(children_of(entry@.all("bits"@))),
{
    let blocks = entry.get_all("bits");
    let ghost list = vdf::referenced(blocks@);
    let mut total: usize = 0;
    assert(list.take(0) == Seq::<Node>::empty());
    for i in 0..blocks.len()
        invariant
            list == vdf::referenced(blocks@),
            total == countable(children_of(list.take(i as int))),
    {
        assert(list.take(i + 1).drop_last() == list.take(i as int));
        assert(list.take(i + 1).last() == blocks@[i as int]@);
        total = plus(total, blocks[i].children.len());
    }
    assert(list.take(list.len() as int) == list);
    total
}

fn find_out(entry: &KeyValue) -> (r: Finding)
    ensures
        r@ == finding_of(entry@),
{
    let named = entry.get("type");
    let numbered = entry.get("type_int");
    let achievements = count_achievements(entry);
    if let Some(name) = named.as_str() {
        Finding { dialect: Dialect::Name, value: Some(text::to_lowercase(name)), achievements }
    } else if numbered.is_valid() {
        let mut value = "int:".to_owned();
        text::push_signed(&mut value, numbered.as_i32_or(-1) as i64);
        Finding { dialect: Dialect::TypeInt, value: Some(value), achievements }
    } else if named.is_valid() {
        let mut value = "num:".to_owned();
        text::push_signed(&mut value, named.as_i32_or(-1) as i64);
        Finding { dialect: Dialect::Number, value: Some(value), achievements }
    } else {
        Finding { dialect: Dialect::Untyped, value: None, achievements }
    }
}

/// Goes through the entries of a schema document.
pub fn survey(root: &KeyValue) -> (r: Option<Vec<Finding>>)
    ensures
        match findings_in(root@) {
            Some(list) => r matches Some(found) && finding_models(found@) == list,
            None => r is None,
        },
{
    if root.children.len() == 0 {
        return None;
    }
    assert(root@.children[0] == root.children@[0]@);
    let listed = root.children[0].get("stats");
    let ghost entries = listed@.children;
    let mut found: Vec<Finding> = Vec::new();
    if let Some(node) = listed.found {
        for i in 0..node.children.len()
            invariant
                entries == node@.children,
                found@.len() == i,
                forall|k: int|
                    0 <= k < i ==> (#[trigger] found@[k])@ == finding_of(entries[k]),
        {
            assert(entries[i as int] == node.children@[i as int]@);
            found.push(find_out(&node.children[i]));
        }
    }
    assert(finding_models(found@) =~= entries.map_values(|e: Node| finding_of(e)));
    Some(found)
}

/// How many achievements some findings count together.
pub open spec fn achievements_counted(list: Seq<FindingModel>) -> nat
    decreases list.len(),
{
    if list.len() == 0 {
        0
    } else {
        achievements_counted(list.drop_last()) + list.last().achievements
    }
}

/// How many of some findings are of an entry without achievements.
pub open spec fn stats_counted(list: Seq<FindingModel>) -> nat
    decreases list.len(),
{
    if list.len() == 0 {
        0
    } else {
        stats_counted(list.drop_last()) + if list.last().achievements == 0 {
            1nat
        } else {
            0
        }
    }
}

/// How many achievements there are, and how many entries without any, which are
/// statistics.
pub fn totals(findings: &Vec<Finding>) -> (r: (usize, usize))
    ensures
        r.0 == countable(achievements_counted(finding_models(findings@))),
        r.1 == stats_counted(finding_models(findings@)),
{
    let ghost list = finding_models(findings@);
    let mut achievements: usize = 0;
    let mut stats: usize = 0;
    assert(list.take(0) == Seq::<FindingModel>::empty());
    for i in 0..findings.len()
        invariant
            list == finding_models(findings@),
            achievements == countable(achievements_counted(list.take(i as int))),
            stats == stats_counted(list.take(i as int)),
            stats <= i,
    {
        assert(list.take(i + 1).drop_last() == list.take(i as int));
        assert(list.take(i + 1).last() == findings@[i as int]@);
        let here = findings[i].achievements;
        if here > 0 {
            achievements = plus(achievements, here);
        } else {
            stats = stats + 1;
        }
    }
    assert(list.take(list.len() as int) == list);
    (achievements, stats)
}

/// How often a text is in a list.
pub open spec fn occurrences(list: Seq<Seq<char>>, label: Seq<char>) -> nat
    decreases list.len(),
{
    if list.len() == 0 {
        0
    } else {
        occurrences(list.drop_last(), label) + if list.last() == label {
            1nat
        } else {
            0
        }
    }
}

/// What a tally says: texts, each with a number.
pub open spec fn tally_of(list: Seq<(String, usize)>) -> Seq<(Seq<char>, nat)> {
    list.map_values(|e: (String, usize)| (e.0@, e.1 as nat))
}

/// Texts in order, and none of them twice.
pub open spec fn in_order(list: Seq<(Seq<char>, nat)>) -> bool {
    forall|i: int, j: int|
        0 <= i < j < list.len() ==> text::at_most((#[trigger] list[i]).0, (#[trigger] list[j]).0)
            && list[i].0 != list[j].0
}

/// The texts of a list in order, each with how often it is in the list.
pub open spec fn tallies(list: Seq<(Seq<char>, nat)>, labels: Seq<Seq<char>>) -> bool {
    &&& in_order(list)
    &&& forall|i: int|
        0 <= i < list.len() ==> (#[trigger] list[i]).1 > 0 && list[i].1 == occurrences(
            labels,
            list[i].0,
        )
    &&& forall|k: int| 0 <= k < labels.len() ==> lists(list, #[trigger] labels[k])
}

/// A tally has an entry for a text.
pub open spec fn lists(list: Seq<(Seq<char>, nat)>, label: Seq<char>) -> bool {
    exists|i: int| 0 <= i < list.len() && (#[trigger] list[i]).0 == label
}

proof fn occurs_at_most(labels: Seq<Seq<char>>, label: Seq<char>)
    ensures
        occurrences(labels, label) <= labels.len(),
        occurrences(labels, label) > 0 <==> labels.contains(label),
    decreases labels.len(),
{
    if labels.len() > 0 {
        let before = labels.drop_last();
        occurs_at_most(before, label);
        if labels.contains(label) && labels.last() != label {
            let i = choose|i: int| 0 <= i < labels.len() && labels[i] == label;
            assert(before[i] == label);
        }
        if before.contains(label) {
            let i = choose|i: int| 0 <= i < before.len() && before[i] == label;
            assert(labels[i] == label);
        }
        if labels.last() == label {
            assert(labels[labels.len() - 1] == label);
        }
    }
}

/// Counts how often each text is in a list.
pub fn tally(labels: &Vec<String>) -> (r: Vec<(String, usize)>)
    ensures
        tallies(tally_of(r@), text::texts_of(labels@)),
{
    let ghost all = text::texts_of(labels@);
    let mut r: Vec<(String, usize)> = Vec::new();
    assert(all.take(0) == Seq::<Seq<char>>::empty());
    for k in 0..labels.len()
        invariant
            all == text::texts_of(labels@),
            tallies(tally_of(r@), all.take(k as int)),
    {
        let label = labels[k].as_str();
        let ghost seen = all.take(k as int);
        let ghost was = tally_of(r@);
        let ghost next = all.take(k + 1);
        proof {
            assert(next.drop_last() == seen);
            assert(next.last() == label@);
        }
        let mut i: usize = 0;
        while i < r.len() && text::is_at_most(r[i].0.as_str(), label) && !text::same_text(
            r[i].0.as_str(),
            label,
        )
            invariant
                was == tally_of(r@),
                i <= r@.len(),
                forall|m: int|
                    0 <= m < i ==> text::at_most((#[trigger] was[m]).0, label@) && was[m].0
                        != label@,
            decreases r@.len() - i,
        {
            assert(was[i as int] == (r@[i as int].0@, r@[i as int].1 as nat));
            i = i + 1;
        }
        proof {
            if i < r@.len() {
                assert(was[i as int] == (r@[i as int].0@, r@[i as int].1 as nat));
            }
            occurs_at_most(seen, label@);
        }
        if i < r.len() && text::same_text(r[i].0.as_str(), label) {
            let n = r[i].1;
            r.set(i, (label.to_owned(), n + 1));
            proof {
                assert(tally_of(r@) =~= was.update(i as int, (label@, (n + 1) as nat)));
                counted_again(was, seen, label@, i as int);
                assert(seen.push(label@) =~= next);
            }
        } else {
            r.insert(i, (label.to_owned(), 1));
            proof {
                assert(tally_of(r@) =~= was.insert(i as int, (label@, 1)));
                counted_first(was, seen, label@, i as int);
                assert(seen.push(label@) =~= next);
            }
        }
    }
    assert(all.take(all.len() as int) == all);
    r
}

proof fn counted_again(list: Seq<(Seq<char>, nat)>, seen: Seq<Seq<char>>, label: Seq<char>, at: int)
    requires
        tallies(list, seen),
        0 <= at < list.len(),
        list[at].0 == label,
    ensures
        tallies(list.update(at, (label, list[at].1 + 1)), seen.push(label)),
{
    let now = list.update(at, (label, list[at].1 + 1));
    let next = seen.push(label);
    assert(next.drop_last() =~= seen);
    assert forall|i: int| 0 <= i < now.len() implies (#[trigger] now[i]).1 > 0 && now[i].1
        == occurrences(next, now[i].0) by {
        assert(list[i].1 == occurrences(seen, list[i].0));
        if i < at {
            assert(list[i].0 != list[at].0);
        } else if i > at {
            assert(list[at].0 != list[i].0);
        }
    }
    assert forall|i: int, j: int| 0 <= i < j < now.len() implies text::at_most(
        (#[trigger] now[i]).0,
        (#[trigger] now[j]).0,
    ) && now[i].0 != now[j].0 by {
        assert(list[i].0 == now[i].0 && list[j].0 == now[j].0);
    }
    assert forall|k: int| 0 <= k < next.len() implies lists(now, #[trigger] next[k]) by {
        if k < seen.len() {
            assert(lists(list, seen[k]));
            let i = choose|i: int| 0 <= i < list.len() && (#[trigger] list[i]).0 == seen[k];
            assert(now[i].0 == next[k]);
        } else {
            assert(now[at].0 == next[k]);
        }
    }
}

proof fn counted_first(list: Seq<(Seq<char>, nat)>, seen: Seq<Seq<char>>, label: Seq<char>, at: int)
    requires
        tallies(list, seen),
        0 <= at <= list.len(),
        forall|m: int|
            0 <= m < at ==> text::at_most((#[trigger] list[m]).0, label) && list[m].0 != label,
        at < list.len() ==> !text::at_most(list[at].0, label),
    ensures
        tallies(list.insert(at, (label, 1)), seen.push(label)),
{
    let now = list.insert(at, (label, 1));
    let next = seen.push(label);
    assert(next.drop_last() =~= seen);
    assert forall|m: int| at <= m < list.len() implies text::at_most(
        label,
        (#[trigger] list[m]).0,
    ) && list[m].0 != label by {
        text::at_most_is_total(label, list[at].0);
        text::at_most_is_total(list[at].0, list[at].0);
        if m > at {
            assert(text::at_most(list[at].0, list[m].0));
            text::at_most_is_transitive(label, list[at].0, list[m].0);
        }
    }
    assert(occurrences(seen, label) == 0) by {
        occurs_at_most(seen, label);
        if seen.contains(label) {
            let k = choose|k: int| 0 <= k < seen.len() && seen[k] == label;
            assert(lists(list, seen[k]));
            let i = choose|i: int| 0 <= i < list.len() && (#[trigger] list[i]).0 == seen[k];
            assert(list[i].0 != label);
        }
    }
    assert forall|i: int| 0 <= i < now.len() implies (#[trigger] now[i]).1 > 0 && now[i].1
        == occurrences(next, now[i].0) by {
        if i < at {
            assert(now[i] == list[i]);
        } else if i > at {
            assert(now[i] == list[i - 1]);
        }
    }
    assert forall|i: int, j: int| 0 <= i < j < now.len() implies text::at_most(
        (#[trigger] now[i]).0,
        (#[trigger] now[j]).0,
    ) && now[i].0 != now[j].0 by {
        if i < at {
            assert(now[i] == list[i]);
        } else if i > at {
            assert(now[i] == list[i - 1]);
        }
        if j < at {
            assert(now[j] == list[j]);
        } else if j > at {
            assert(now[j] == list[j - 1]);
        }
    }
    assert forall|k: int| 0 <= k < next.len() implies lists(now, #[trigger] next[k]) by {
        if k < seen.len() {
            assert(lists(list, seen[k]));
            let i = choose|i: int| 0 <= i < list.len() && (#[trigger] list[i]).0 == seen[k];
            if i < at {
                assert(now[i] == list[i]);
            } else {
                assert(now[i + 1] == list[i]);
            }
        } else {
            assert(now[at].0 == next[k]);
        }
    }
}

/// A schema file's name begins with `UserGameStatsSchema_` and ends in `.bin`, and every
/// such name is taken for one.
pub proof fn schema_files_are_known_by_their_ends(name: Seq<char>, middle: Seq<char>)
    ensures
        names_schema("UserGameStatsSchema_"@ + middle + ".bin"@),
        names_schema(name) ==> exists|m: Seq<char>|
            name == #[trigger] ("UserGameStatsSchema_"@ + m + ".bin"@),
{
    reveal_strlit("UserGameStatsSchema_");
    reveal_strlit(".bin");
    let front = "UserGameStatsSchema_"@;
    let back = ".bin"@;
    let whole = front + middle + back;
    assert(whole.subrange(0, 20) =~= front);
    assert(whole.subrange(whole.len() - 4, whole.len() as int) =~= back);
    if names_schema(name) {
        let n = name.len() as int;
        assert forall|i: int| 0 <= i < 20 implies name[i] == front[i] by {
            assert(name.subrange(0, 20)[i] == front[i]);
        }
        assert forall|i: int| 0 <= i < 4 implies name[n - 4 + i] == back[i] by {
            assert(name.subrange(n - 4, n)[i] == back[i]);
        }
        assert(name[n - 4 + 0] == back[0]);
        assert(name[n - 4] == '.');
        assert(forall|i: int| 0 <= i < 20 ==> front[i] != '.');
        assert(n >= 24);
        assert(name =~= front + name.subrange(20, n - 4) + back);
    }
}

/// An entry with a `type` in words is of the dialect of names; one without is known by a
/// `type_int`, else by a `type` that is a number; and one with neither has no type. The type
/// is told in lower case, or by its number.
pub proof fn dialects_are_told_apart(entry: Node)
    ensures
        ({
            let kind = entry.child("type"@);
            let number = entry.child("type_int"@);
            let found = finding_of(entry);
            &&& kind.value matches Datum::String(words) ==> found.dialect == Dialect::Name
                && found.value == Some(text::lowered(words))
            &&& !(kind.value is String) && number.name.len() > 0 ==> found.dialect
                == Dialect::TypeInt && (found.value matches Some(told) && exists|a: Seq<char>|
                told == #[trigger] (a + text::signed_decimal(number.i32_or(-1))))
            &&& !(kind.value is String) && number.name.len() == 0 && kind.name.len() > 0
                ==> found.dialect == Dialect::Number && (found.value matches Some(told) && exists|
                a: Seq<char>,
            |
                told == #[trigger] (a + text::signed_decimal(kind.i32_or(-1))))
            &&& !(kind.value is String) && number.name.len() == 0 && kind.name.len() == 0
                ==> found.dialect == Dialect::Untyped && found.value is None
        }),
{
    let kind = entry.child("type"@);
    let number = entry.child("type_int"@);
    assert(type_given(entry) matches Some(told) ==> dialect_of(entry) == Dialect::TypeInt ==> told
        == "int:"@ + text::signed_decimal(number.i32_or(-1)));
    assert(type_given(entry) matches Some(told) ==> dialect_of(entry) == Dialect::Number ==> told
        == "num:"@ + text::signed_decimal(kind.i32_or(-1)));
}

/// Children are counted block by block.
pub proof fn every_block_counts(a: Seq<Node>, block: Node, b: Seq<Node>)
    ensures
        children_of(a + seq![block] + b) == children_of(a) + block.children.len() + children_of(b),
        children_of(Seq::empty()) == 0,
    decreases b.len(),
{
    let all = a + seq![block] + b;
    if b.len() == 0 {
        assert(all.drop_last() =~= a);
        assert(all.last() == block);
    } else {
        every_block_counts(a, block, b.drop_last());
        assert(all.drop_last() =~= a + seq![block] + b.drop_last());
        assert(all.last() == b.last());
    }
}

/// Every entry of the first part's `stats` is looked into, in order, and nothing else; the
/// achievements of an entry are the children of all its `bits`.
pub proof fn every_entry_is_looked_into(root: Node, i: int)
    requires
        root.children.len() > 0,
        0 <= i < root.children[0].child("stats"@).children.len(),
    ensures
        findings_in(root) matches Some(list) && list.len() == root.children[0].child(
            "stats"@,
        ).children.len() && list[i] == finding_of(root.children[0].child("stats"@).children[i]),
        ({
            let entry = root.children[0].child("stats"@).children[i];
            let all = children_of(entry.all("bits"@));
            all <= usize::MAX ==> finding_of(entry).achievements == all
        }),
{
}

/// The totals are summed over the findings: each adds its achievements, and counts for one
/// statistic where it has none.
pub proof fn totals_are_summed(list: Seq<FindingModel>, found: FindingModel)
    ensures
        achievements_counted(list.push(found)) == achievements_counted(list) + found.achievements,
        stats_counted(list.push(found)) == stats_counted(list) + if found.achievements == 0 {
            1int
        } else {
            0
        },
        achievements_counted(Seq::empty()) == 0,
        stats_counted(Seq::empty()) == 0,
{
    assert(list.push(found).drop_last() =~= list);
}

/// Each time that a text is in a list counts for one.
pub proof fn every_occurrence_counts(list: Seq<Seq<char>>, last: Seq<char>, label: Seq<char>)
    ensures
        occurrences(list.push(last), label) == occurrences(list, label) + if last == label {
            1int
        } else {
            0
        },
        occurrences(Seq::empty(), label) == 0,
{
    assert(list.push(last).drop_last() =~= list);
}

} // verus!
