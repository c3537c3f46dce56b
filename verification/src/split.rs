//! Cutting sequences at a separator.

use vstd::prelude::*;

verus! {

/// The pieces of a sequence between the places where `sep` stands. There is
/// always one more piece than there are separators.
pub open spec fn pieces<A>(s: Seq<A>, sep: A) -> Seq<Seq<A>>
    decreases s.len(),
{
    if s.len() == 0 {
        seq![Seq::empty()]
    } else {
        let before = pieces(s.drop_last(), sep);
        if s.last() == sep {
            before.push(Seq::empty())
        } else {
            before.drop_last().push(before.last().push(s.last()))
        }
    }
}

/// There is a piece, and none of them holds the separator.
pub proof fn pieces_hold_no_separator<A>(s: Seq<A>, sep: A)
    ensures
        pieces(s, sep).len() > 0,
        forall|i: int| 0 <= i < pieces(s, sep).len() ==> !(#[trigger] pieces(s, sep)[i]).contains(sep),
    decreases s.len(),
{
    if s.len() > 0 {
        pieces_hold_no_separator(s.drop_last(), sep);
        let before = pieces(s.drop_last(), sep);
        assert forall|i: int| 0 <= i < pieces(s, sep).len() implies !(
        #[trigger] pieces(s, sep)[i]).contains(sep) by {
            if i < before.len() - 1 {
                assert(pieces(s, sep)[i] == before[i]);
            } else {
                assert(!before[before.len() - 1].contains(sep));
                let piece = pieces(s, sep)[i];
                assert forall|k: int| 0 <= k < piece.len() implies piece[k] != sep by {
                    if k < before.last().len() {
                        assert(before.last()[k] != sep);
                    }
                }
            }
        }
    }
}

/// What holds no separator makes the last piece of what it stands behind longer.
pub proof fn pieces_of_a_sum<A>(s: Seq<A>, tail: Seq<A>, sep: A)
    requires
        !tail.contains(sep),
    ensures
        pieces(s, sep).len() > 0,
        pieces(s + tail, sep) == pieces(s, sep).drop_last().push(pieces(s, sep).last() + tail),
    decreases tail.len(),
{
    pieces_hold_no_separator(s, sep);
    if tail.len() == 0 {
        assert(s + tail == s);
        assert(pieces(s, sep).last() + tail == pieces(s, sep).last());
        assert(pieces(s, sep).drop_last().push(pieces(s, sep).last()) == pieces(s, sep));
    } else {
        let less = tail.drop_last();
        assert forall|i: int| 0 <= i < less.len() implies less[i] != sep by {
            assert(less[i] == tail[i]);
        }
        pieces_of_a_sum(s, less, sep);
        assert((s + tail).drop_last() == s + less);
        assert(tail[tail.len() - 1] != sep);
        assert((pieces(s, sep).last() + less).push(tail.last()) == pieces(s, sep).last() + tail);
        let before = pieces(s + less, sep);
        assert(before.drop_last() == pieces(s, sep).drop_last());
    }
}

/// What lists of lists say.
pub open spec fn views<A>(list: Seq<Vec<A>>) -> Seq<Seq<A>> {
    list.map_values(|v: Vec<A>| v@)
}

/// The pieces of a text between the places where `sep` stands.
pub fn split_chars(s: &Vec<char>, sep: char) -> (r: Vec<Vec<char>>)
    ensures
        views(r@) == pieces(s@, sep),
{
    let mut done: Vec<Vec<char>> = Vec::new();
    let mut current: Vec<char> = Vec::new();
    for i in 0..s.len()
        invariant
            views(done@).push(current@) == pieces(s@.take(i as int), sep),
    {
        proof {
            assert(s@.take(i + 1).drop_last() == s@.take(i as int));
        }
        let ghost was = views(done@);
        if s[i] == sep {
            done.push(current);
            assert(views(done@) == was.push(current@));
            current = Vec::new();
        } else {
            assert(was.push(current@).drop_last() == was);
            current.push(s[i]);
        }
    }
    assert(s@.take(s@.len() as int) == s@);
    let ghost was = views(done@);
    done.push(current);
    assert(views(done@) == was.push(current@));
    done
}

/// The pieces of some bytes between the places where `sep` stands.
pub fn split_bytes(s: &Vec<u8>, sep: u8) -> (r: Vec<Vec<u8>>)
    ensures
        views(r@) == pieces(s@, sep),
{
    let mut done: Vec<Vec<u8>> = Vec::new();
    let mut current: Vec<u8> = Vec::new();
    for i in 0..s.len()
        invariant
            views(done@).push(current@) == pieces(s@.take(i as int), sep),
    {
        proof {
            assert(s@.take(i + 1).drop_last() == s@.take(i as int));
        }
        let ghost was = views(done@);
        if s[i] == sep {
            done.push(current);
            assert(views(done@) == was.push(current@));
            current = Vec::new();
        } else {
            assert(was.push(current@).drop_last() == was);
            current.push(s[i]);
        }
    }
    assert(s@.take(s@.len() as int) == s@);
    let ghost was = views(done@);
    done.push(current);
    assert(views(done@) == was.push(current@));
    done
}

/// What holds no separator is one piece, and a separator parts what stands before it from
/// what stands behind it.
pub proof fn separators_part<A>(a: Seq<A>, b: Seq<A>, sep: A)
    ensures
        !a.contains(sep) ==> pieces(a, sep) == seq![a],
        pieces(a + seq![sep] + b, sep) == pieces(a, sep) + pieces(b, sep),
    decreases b.len(),
{
    if !a.contains(sep) {
        let none = Seq::<A>::empty();
        pieces_of_a_sum(none, a, sep);
        assert(none + a =~= a);
        assert(pieces(none, sep) =~= seq![none]);
        assert(pieces(a, sep) =~= seq![a]);
    }
    let whole = a + seq![sep] + b;
    pieces_hold_no_separator(a, sep);
    if b.len() == 0 {
        assert(whole.drop_last() =~= a);
        assert(whole.last() == sep);
        assert(pieces(whole, sep) =~= pieces(a, sep) + pieces(b, sep));
    } else {
        let less = b.drop_last();
        separators_part(a, less, sep);
        pieces_hold_no_separator(less, sep);
        assert(whole.drop_last() =~= a + seq![sep] + less);
        assert(whole.last() == b.last());
        let before = pieces(a, sep) + pieces(less, sep);
        assert(before.last() == pieces(less, sep).last());
        assert(before.drop_last() =~= pieces(a, sep) + pieces(less, sep).drop_last());
        assert(pieces(whole, sep) =~= pieces(a, sep) + pieces(b, sep));
    }
}

} // verus!
