//! Keeping the games in order.

use vstd::prelude::*;

use crate::library;
use crate::library::{GameEntry, GameModel};
use crate::text;

verus! {

/// What games are ordered by: their names, whatever the case.
pub open spec fn sort_key(game: GameModel) -> Seq<char> {
    text::lowered(game.name)
}

/// A game in its place among ordered ones: behind those that do not come after
/// it.
pub open spec fn placed(list: Seq<GameModel>, game: GameModel) -> Seq<GameModel>
    decreases list.len(),
{
    if list.len() == 0 || text::at_most(sort_key(list.last()), sort_key(game)) {
        list.push(game)
    } else {
        placed(list.drop_last(), game).push(list.last())
    }
}

/// Games ordered by name. Games of one name stay in the order they were in.
pub open spec fn by_name(list: Seq<GameModel>) -> Seq<GameModel>
    decreases list.len(),
{
    if list.len() == 0 {
        Seq::empty()
    } else {
        placed(by_name(list.drop_last()), list.last())
    }
}

/// Games without those that follow one with the same app ID.
pub open spec fn without_repeats(list: Seq<GameModel>) -> Seq<GameModel>
    decreases list.len(),
{
    if list.len() == 0 {
        Seq::empty()
    } else {
        let before = without_repeats(list.drop_last());
        if before.len() > 0 && before.last().app_id == list.last().app_id {
            before
        } else {
            before.push(list.last())
        }
    }
}

/// Games as the picker keeps them.
pub open spec fn tidied(list: Seq<GameModel>) -> Seq<GameModel> {
    without_repeats(by_name(list))
}

/// No app is among the games twice.
pub open spec fn ids_differ(list: Seq<GameModel>) -> bool {
    forall|i: int, j: int| 0 <= i < j < list.len() ==> list[i].app_id != list[j].app_id
}

/// A game's place among ordered ones.
spec fn place_of(list: Seq<GameModel>, game: GameModel) -> int
    decreases list.len(),
{
    if list.len() == 0 || text::at_most(sort_key(list.last()), sort_key(game)) {
        list.len() as int
    } else {
        place_of(list.drop_last(), game)
    }
}

proof fn placed_is_insert(list: Seq<GameModel>, game: GameModel)
    ensures
        0 <= place_of(list, game) <= list.len(),
        placed(list, game) == list.insert(place_of(list, game), game),
    decreases list.len(),
{
    if list.len() > 0 && !text::at_most(sort_key(list.last()), sort_key(game)) {
        placed_is_insert(list.drop_last(), game);
        let k = place_of(list, game);
        assert(list.drop_last().insert(k, game).push(list.last()) =~= list.insert(k, game));
    } else {
        assert(list.push(game) =~= list.insert(list.len() as int, game));
    }
}

/// The games in order, with their keys at hand.
struct Shelf {
    games: Vec<GameEntry>,
    keys: Vec<String>,
}

impl Shelf {
    spec fn valid(self) -> bool {
        &&& self.games@.len() == self.keys@.len()
        &&& forall|i: int|
            0 <= i < self.games@.len() ==> (#[trigger] self.keys@[i])@ == sort_key(
                self.games@[i]@,
            )
    }

    fn place(&mut self, game: GameEntry)
        requires
            old(self).valid(),
        ensures
            final(self).valid(),
            library::game_models(final(self).games@) == placed(
                library::game_models(old(self).games@),
                game@,
            ),
    {
        let key = text::to_lowercase(game.name.as_str());
        let ghost list = library::game_models(self.games@);
        let ghost before = *self;
        let mut at = self.games.len();
        assert(list.take(at as int) == list);
        while at > 0 && !text::is_at_most(self.keys[at - 1].as_str(), key.as_str())
            invariant
                *self == before,
                self.valid(),
                at <= self.games@.len(),
                list == library::game_models(self.games@),
                key@ == sort_key(game@),
                place_of(list, game@) == place_of(list.take(at as int), game@),
            decreases at,
        {
            proof {
                let upto = list.take(at as int);
                assert(upto.last() == self.games@[at - 1]@);
                assert(upto.drop_last() == list.take(at - 1));
            }
            at = at - 1;
        }
        proof {
            if at > 0 {
                assert(list.take(at as int).last() == self.games@[at - 1]@);
            }
            placed_is_insert(list, game@);
        }
        self.games.insert(at, game);
        self.keys.insert(at, key);
        proof {
            assert(library::game_models(self.games@) =~= list.insert(at as int, game@));
            assert forall|i: int| 0 <= i < self.games@.len() implies (#[trigger] self.keys@[i])@
                == sort_key(self.games@[i]@) by {
                if i < at {
                    assert(self.keys@[i] == before.keys@[i]);
                    assert(self.games@[i] == before.games@[i]);
                } else if i > at {
                    assert(self.keys@[i] == before.keys@[i - 1]);
                    assert(self.games@[i] == before.games@[i - 1]);
                }
            }
        }
    }
}

/// Orders games by name and drops those that follow one with the same app ID.
pub fn tidy(games: &Vec<GameEntry>) -> (r: Vec<GameEntry>)
    ensures
        library::game_models(r@) == tidied(library::game_models(games@)),
{
    let ghost all = library::game_models(games@);
    let mut shelf = Shelf { games: Vec::new(), keys: Vec::new() };
    assert(library::game_models(shelf.games@) =~= by_name(all.take(0)));
    for i in 0..games.len()
        invariant
            shelf.valid(),
            all == library::game_models(games@),
            library::game_models(shelf.games@) == by_name(all.take(i as int)),
    {
        proof {
            assert(all.take(i + 1).drop_last() == all.take(i as int));
            assert(all.take(i + 1).last() == games@[i as int]@);
        }
        shelf.place(games[i].clone());
    }
    assert(all.take(all.len() as int) == all);
    let ordered = shelf.games;
    let ghost list = library::game_models(ordered@);
    let mut r: Vec<GameEntry> = Vec::new();
    assert(library::game_models(r@) =~= without_repeats(list.take(0)));
    for i in 0..ordered.len()
        invariant
            list == library::game_models(ordered@),
            library::game_models(r@) == without_repeats(list.take(i as int)),
    {
        let ghost was = library::game_models(r@);
        proof {
            assert(list.take(i + 1).drop_last() == list.take(i as int));
            assert(list.take(i + 1).last() == ordered@[i as int]@);
        }
        let n = r.len();
        if n > 0 {
            assert(was.last() == r@[n - 1]@);
        }
        if n == 0 || r[n - 1].app_id != ordered[i].app_id {
            r.push(ordered[i].clone());
            assert(library::game_models(r@) =~= was.push(ordered@[i as int]@));
        }
    }
    assert(list.take(list.len() as int) == list);
    r
}

/// The games are in order.
pub open spec fn is_ordered(list: Seq<GameModel>) -> bool {
    forall|i: int, j: int|
        0 <= i <= j < list.len() ==> text::at_most(sort_key(list[i]), sort_key(list[j]))
}

proof fn placed_keeps_order(list: Seq<GameModel>, game: GameModel)
    requires
        is_ordered(list),
    ensures
        is_ordered(placed(list, game)),
        forall|i: int|
            0 <= i < placed(list, game).len() ==> (#[trigger] placed(list, game)[i] == game || (
            list.len() > 0 && text::at_most(sort_key(placed(list, game)[i]), sort_key(list.last())))),
    decreases list.len(),
{
    let now = placed(list, game);
    if list.len() == 0 {
        text::at_most_is_total(sort_key(game), sort_key(game));
    } else if text::at_most(sort_key(list.last()), sort_key(game)) {
        assert forall|i: int, j: int| 0 <= i <= j < now.len() implies text::at_most(
            sort_key(now[i]),
            sort_key(now[j]),
        ) by {
            if j < list.len() {
                assert(now[i] == list[i] && now[j] == list[j]);
            } else if i < list.len() {
                assert(text::at_most(sort_key(list[i]), sort_key(list[list.len() - 1])));
                text::at_most_is_transitive(
                    sort_key(list[i]),
                    sort_key(list.last()),
                    sort_key(game),
                );
            } else {
                text::at_most_is_total(sort_key(game), sort_key(game));
            }
        }
        assert forall|i: int| 0 <= i < now.len() implies (#[trigger] now[i] == game
            || text::at_most(sort_key(now[i]), sort_key(list.last()))) by {
            if i < list.len() {
                assert(now[i] == list[i]);
                assert(text::at_most(sort_key(list[i]), sort_key(list[list.len() - 1])));
            }
        }
    } else {
        let shorter = list.drop_last();
        assert forall|i: int, j: int| 0 <= i <= j < shorter.len() implies text::at_most(
            sort_key(shorter[i]),
            sort_key(shorter[j]),
        ) by {
            assert(shorter[i] == list[i] && shorter[j] == list[j]);
        }
        placed_keeps_order(shorter, game);
        placed_is_insert(shorter, game);
        let front = placed(shorter, game);
        text::at_most_is_total(sort_key(list.last()), sort_key(game));
        assert forall|i: int| 0 <= i < front.len() implies text::at_most(
            sort_key(#[trigger] front[i]),
            sort_key(list.last()),
        ) by {
            if front[i] != game {
                assert(text::at_most(
                    sort_key(list[list.len() - 2]),
                    sort_key(list[list.len() - 1]),
                ));
                text::at_most_is_transitive(
                    sort_key(front[i]),
                    sort_key(shorter.last()),
                    sort_key(list.last()),
                );
            }
        }
        text::at_most_is_total(sort_key(list.last()), sort_key(list.last()));
        assert forall|i: int, j: int| 0 <= i <= j < now.len() implies text::at_most(
            sort_key(now[i]),
            sort_key(now[j]),
        ) by {
            if j < front.len() {
                assert(now[i] == front[i] && now[j] == front[j]);
            } else if i < front.len() {
                assert(now[i] == front[i]);
            }
        }
        assert forall|i: int| 0 <= i < now.len() implies (#[trigger] now[i] == game
            || text::at_most(sort_key(now[i]), sort_key(list.last()))) by {
            if i < front.len() {
                assert(now[i] == front[i]);
            }
        }
    }
}

/// Ordering games puts them in order.
pub proof fn by_name_is_ordered(list: Seq<GameModel>)
    ensures
        is_ordered(by_name(list)),
    decreases list.len(),
{
    if list.len() > 0 {
        by_name_is_ordered(list.drop_last());
        placed_keeps_order(by_name(list.drop_last()), list.last());
    }
}

/// Ordering games neither adds nor loses any.
pub proof fn by_name_keeps_games(list: Seq<GameModel>)
    ensures
        by_name(list).to_multiset() == list.to_multiset(),
        by_name(list).len() == list.len(),
    decreases list.len(),
{
    broadcast use vstd::seq_lib::group_to_multiset_ensures;

    if list.len() > 0 {
        let before = by_name(list.drop_last());
        by_name_keeps_games(list.drop_last());
        placed_is_insert(before, list.last());
        let k = place_of(before, list.last());
        assert(before.insert(k, list.last()).to_multiset() =~= before.to_multiset().insert(
            list.last(),
        ));
        assert(list =~= list.drop_last().push(list.last()));
    }
}

proof fn placed_is_stable(list: Seq<GameModel>, game: GameModel, key: Seq<char>)
    ensures
        ({
            let same = |g: GameModel| sort_key(g) == key;
            placed(list, game).filter(same) == if sort_key(game) == key {
                list.filter(same).push(game)
            } else {
                list.filter(same)
            }
        }),
    decreases list.len(),
{
    let same = |g: GameModel| sort_key(g) == key;
    if list.len() == 0 || text::at_most(sort_key(list.last()), sort_key(game)) {
        list.lemma_filter_push(game, same);
    } else {
        let shorter = list.drop_last();
        placed_is_stable(shorter, game, key);
        placed(shorter, game).lemma_filter_push(list.last(), same);
        shorter.lemma_filter_push(list.last(), same);
        assert(shorter.push(list.last()) =~= list);
        text::at_most_is_total(sort_key(game), sort_key(game));
    }
}

/// Games of one name stay in the order they were in.
pub proof fn by_name_is_stable(list: Seq<GameModel>, key: Seq<char>)
    ensures
        by_name(list).filter(|g: GameModel| sort_key(g) == key) == list.filter(
            |g: GameModel| sort_key(g) == key,
        ),
    decreases list.len(),
{
    let same = |g: GameModel| sort_key(g) == key;
    if list.len() > 0 {
        let shorter = list.drop_last();
        by_name_is_stable(shorter, key);
        placed_is_stable(by_name(shorter), list.last(), key);
        shorter.lemma_filter_push(list.last(), same);
        assert(shorter.push(list.last()) =~= list);
    } else {
        assert(list =~= Seq::<GameModel>::empty());
    }
}

proof fn placed_keeps_ids_apart(list: Seq<GameModel>, game: GameModel)
    requires
        ids_differ(list),
        forall|i: int| 0 <= i < list.len() ==> (#[trigger] list[i]).app_id != game.app_id,
    ensures
        ids_differ(placed(list, game)),
{
    placed_is_insert(list, game);
    let k = place_of(list, game);
    let now = list.insert(k, game);
    assert forall|i: int, j: int| 0 <= i < j < now.len() implies now[i].app_id
        != now[j].app_id by {
        let a = if i < k {
            i
        } else {
            i - 1
        };
        let b = if j < k {
            j
        } else {
            j - 1
        };
        if i != k {
            assert(now[i] == list[a]);
        }
        if j != k {
            assert(now[j] == list[b]);
        }
    }
}

proof fn by_name_keeps_ids_apart(list: Seq<GameModel>)
    requires
        ids_differ(list),
    ensures
        ids_differ(by_name(list)),
        forall|g: GameModel| by_name(list).contains(g) ==> list.contains(g),
    decreases list.len(),
{
    if list.len() > 0 {
        let shorter = list.drop_last();
        assert forall|i: int, j: int| 0 <= i < j < shorter.len() implies shorter[i].app_id
            != shorter[j].app_id by {
            assert(shorter[i] == list[i] && shorter[j] == list[j]);
        }
        by_name_keeps_ids_apart(shorter);
        let before = by_name(shorter);
        assert forall|i: int| 0 <= i < before.len() implies (#[trigger] before[i]).app_id
            != list.last().app_id by {
            assert(before.contains(before[i]));
            assert(shorter.contains(before[i]));
            let k = shorter.index_of(before[i]);
            assert(list[k] == before[i]);
            assert(list[list.len() - 1] == list.last());
        }
        placed_keeps_ids_apart(before, list.last());
        placed_is_insert(before, list.last());
        let at = place_of(before, list.last());
        assert forall|g: GameModel| by_name(list).contains(g) implies list.contains(g) by {
            let k = by_name(list).index_of(g);
            if k == at {
                assert(list[list.len() - 1] == g);
            } else {
                let m = if k < at {
                    k
                } else {
                    k - 1
                };
                assert(before[m] == g);
                assert(before.contains(g));
                assert(shorter.contains(g));
                let n = shorter.index_of(g);
                assert(list[n] == g);
            }
        }
    }
}

proof fn without_repeats_keeps_different(list: Seq<GameModel>)
    requires
        ids_differ(list),
    ensures
        without_repeats(list) == list,
    decreases list.len(),
{
    if list.len() > 0 {
        let shorter = list.drop_last();
        assert forall|i: int, j: int| 0 <= i < j < shorter.len() implies shorter[i].app_id
            != shorter[j].app_id by {
            assert(shorter[i] == list[i] && shorter[j] == list[j]);
        }
        without_repeats_keeps_different(shorter);
        if shorter.len() > 0 {
            assert(list[list.len() - 2].app_id != list[list.len() - 1].app_id);
        }
        assert(shorter.push(list.last()) =~= list);
    } else {
        assert(list =~= Seq::<GameModel>::empty());
    }
}

/// Where no app is among the games twice, tidying them only orders them, and
/// none is among them twice afterwards.
pub proof fn tidying_keeps_different_games(list: Seq<GameModel>)
    requires
        ids_differ(list),
    ensures
        tidied(list) == by_name(list),
        ids_differ(tidied(list)),
{
    by_name_keeps_ids_apart(list);
    without_repeats_keeps_different(by_name(list));
}

proof fn without_repeats_is_part(list: Seq<GameModel>)
    ensures
        list.len() > 0 <==> without_repeats(list).len() > 0,
        list.len() > 0 ==> without_repeats(list).last().app_id == list.last().app_id,
        forall|k: int|
            0 <= k < without_repeats(list).len() ==> list.contains(
                #[trigger] without_repeats(list)[k],
            ),
        forall|i: int|
            0 <= i < list.len() ==> has_app(without_repeats(list), (#[trigger] list[i]).app_id),
        is_ordered(list) ==> is_ordered(without_repeats(list)),
    decreases list.len(),
{
    let now = without_repeats(list);
    if list.len() > 0 {
        let shorter = list.drop_last();
        let last = list[list.len() - 1];
        without_repeats_is_part(shorter);
        let before = without_repeats(shorter);
        assert forall|k: int| 0 <= k < before.len() implies list.contains(#[trigger] before[k]) by {
            let m = shorter.index_of(before[k]);
            assert(list[m] == before[k]);
        }
        assert forall|k: int| 0 <= k < now.len() implies list.contains(#[trigger] now[k]) by {
            if k < before.len() {
                assert(now[k] == before[k]);
            } else {
                assert(list[list.len() - 1] == now[k]);
            }
        }
        assert(has_app(now, last.app_id)) by {
            assert(now[now.len() - 1].app_id == last.app_id);
        }
        assert forall|i: int| 0 <= i < list.len() implies has_app(
            now,
            (#[trigger] list[i]).app_id,
        ) by {
            if i < shorter.len() {
                assert(shorter[i] == list[i]);
                let k = choose|k: int|
                    0 <= k < before.len() && (#[trigger] before[k]).app_id == list[i].app_id;
                assert(now[k] == before[k]);
            }
        }
        if is_ordered(list) {
            assert(is_ordered(shorter)) by {
                assert forall|i: int, j: int| 0 <= i <= j < shorter.len() implies text::at_most(
                    sort_key(shorter[i]),
                    sort_key(shorter[j]),
                ) by {
                    assert(shorter[i] == list[i] && shorter[j] == list[j]);
                }
            }
            assert forall|i: int, j: int| 0 <= i <= j < now.len() implies text::at_most(
                sort_key(now[i]),
                sort_key(now[j]),
            ) by {
                if j < before.len() {
                    assert(now[i] == before[i] && now[j] == before[j]);
                } else {
                    assert(now[j] == last);
                    assert(list.contains(now[i]));
                    let m = list.index_of(now[i]);
                    assert(text::at_most(sort_key(list[m]), sort_key(list[list.len() - 1])));
                }
            }
        }
    }
}

/// An app is among the games.
pub open spec fn has_app(list: Seq<GameModel>, app_id: u32) -> bool {
    exists|i: int| 0 <= i < list.len() && (#[trigger] list[i]).app_id == app_id
}

/// Of tidied games each comes before those whose names, in lower case, come behind its
/// own in the alphabet.
pub proof fn tidied_games_are_in_alphabetical_order(list: Seq<GameModel>, i: int, j: int)
    requires
        0 <= i <= j < tidied(list).len(),
    ensures
        text::at_most(text::lowered(tidied(list)[i].name), text::lowered(tidied(list)[j].name)),
{
    by_name_is_ordered(list);
    without_repeats_is_part(by_name(list));
    let all = tidied(list);
    assert(is_ordered(all));
    assert(text::at_most(sort_key(all[i]), sort_key(all[j])));
}

/// Tidying games makes up none, loses no app, and leaves no two games of one app next
/// to each other.
pub proof fn tidying_loses_no_app(list: Seq<GameModel>)
    ensures
        forall|k: int|
            0 <= k < tidied(list).len() ==> list.contains(#[trigger] tidied(list)[k]),
        forall|i: int| 0 <= i < list.len() ==> has_app(tidied(list), (#[trigger] list[i]).app_id),
        forall|j: int, k: int|
            0 <= j && k == j + 1 && k < tidied(list).len() ==> (
            #[trigger] tidied(list)[j]).app_id != (#[trigger] tidied(list)[k]).app_id,
{
    let ordered = by_name(list);
    let all = tidied(list);
    without_repeats_is_part(ordered);
    assert forall|k: int| 0 <= k < all.len() implies list.contains(#[trigger] all[k]) by {
        assert(ordered.contains(all[k]));
        by_name_holds_the_same(list, all[k]);
    }
    assert forall|i: int| 0 <= i < list.len() implies has_app(
        all,
        (#[trigger] list[i]).app_id,
    ) by {
        assert(list.contains(list[i]));
        by_name_holds_the_same(list, list[i]);
        let m = ordered.index_of(list[i]);
        assert(has_app(all, ordered[m].app_id));
    }
    neighbours_differ(ordered);
}

proof fn by_name_holds_the_same(list: Seq<GameModel>, game: GameModel)
    ensures
        by_name(list).contains(game) <==> list.contains(game),
{
    broadcast use vstd::seq_lib::group_to_multiset_ensures;

    by_name_keeps_games(list);
    assert(by_name(list).contains(game) <==> by_name(list).to_multiset().count(game) > 0);
    assert(list.contains(game) <==> list.to_multiset().count(game) > 0);
}

proof fn neighbours_differ(list: Seq<GameModel>)
    ensures
        forall|j: int, k: int|
            0 <= j && k == j + 1 && k < without_repeats(list).len() ==> (
            #[trigger] without_repeats(list)[j]).app_id != (
            #[trigger] without_repeats(list)[k]).app_id,
    decreases list.len(),
{
    if list.len() > 0 {
        neighbours_differ(list.drop_last());
    }
}

proof fn last_app_is_kept(list: Seq<GameModel>)
    requires
        list.len() > 0,
    ensures
        without_repeats(list).len() > 0,
        without_repeats(list).last().app_id == list.last().app_id,
{
}

/// Of games of one app that stand next to each other the first is kept.
pub proof fn the_first_of_repeated_games_is_kept(
    before: Seq<GameModel>,
    first: GameModel,
    repeats: Seq<GameModel>,
)
    requires
        before.len() > 0 ==> before[before.len() - 1].app_id != first.app_id,
        forall|i: int| 0 <= i < repeats.len() ==> (#[trigger] repeats[i]).app_id == first.app_id,
    ensures
        without_repeats(before + seq![first] + repeats) == without_repeats(before) + seq![first],
    decreases repeats.len(),
{
    let list = before + seq![first] + repeats;
    if repeats.len() == 0 {
        assert(list.drop_last() =~= before);
        assert(list.last() == first);
        if before.len() > 0 {
            last_app_is_kept(before);
        }
    } else {
        let fewer = repeats.drop_last();
        assert forall|i: int| 0 <= i < fewer.len() implies (#[trigger] fewer[i]).app_id
            == first.app_id by {
            assert(fewer[i] == repeats[i]);
        }
        the_first_of_repeated_games_is_kept(before, first, fewer);
        assert(list.drop_last() =~= before + seq![first] + fewer);
        assert(list.last() == repeats[repeats.len() - 1]);
    }
    assert(without_repeats(list) =~= without_repeats(before) + seq![first]);
}

} // verus!
