//! File-system paths by their bytes.

use vstd::prelude::*;
use vstd::utf8::encode_utf8;

use crate::split;
use crate::text;

verus! {

/// The byte of the separator, `/`.
pub const SEPARATOR: u8 = 47;

/// The byte of a dot.
pub const DOT: u8 = 46;

/// A path as the operating system spells it.
#[derive(Debug)]
pub struct FsPath {
    bytes: Vec<u8>,
}

impl View for FsPath {
    type V = Seq<u8>;

    closed spec fn view(&self) -> Seq<u8> {
        self.bytes@
    }
}

/// What a list of paths says.
pub open spec fn spelled(list: Seq<FsPath>) -> Seq<Seq<u8>> {
    list.map_values(|p: FsPath| p@)
}

/// A path that starts at the root of the file system.
pub open spec fn is_absolute(path: Seq<u8>) -> bool {
    path.len() > 0 && path[0] == SEPARATOR
}

/// `tail` seen from `base`: an absolute path stands for itself, any other is
/// put behind `base` with one separator between them.
pub open spec fn joined(base: Seq<u8>, tail: Seq<u8>) -> Seq<u8> {
    if is_absolute(tail) {
        tail
    } else if base.len() > 0 && base.last() != SEPARATOR {
        base.push(SEPARATOR) + tail
    } else {
        base + tail
    }
}

/// The names among the pieces of a path. Empty pieces and dots say nothing,
/// except for a dot at the very beginning.
pub open spec fn names(list: Seq<Seq<u8>>) -> Seq<Seq<u8>>
    decreases list.len(),
{
    if list.len() == 0 {
        Seq::empty()
    } else {
        let before = names(list.drop_last());
        if list.last().len() == 0 || (list.last() == seq![DOT] && list.len() > 1) {
            before
        } else {
            before.push(list.last())
        }
    }
}

/// Two spellings of one path: both from the root or neither, and the same names
/// in the same order.
pub open spec fn same_path(a: Seq<u8>, b: Seq<u8>) -> bool {
    &&& is_absolute(a) == is_absolute(b)
    &&& names(split::pieces(a, SEPARATOR)) == names(split::pieces(b, SEPARATOR))
}

fn same_bytes(a: &Vec<u8>, b: &Vec<u8>) -> (r: bool)
    ensures
        r == (a@ == b@),
{
    if a.len() != b.len() {
        return false;
    }
    for i in 0..a.len()
        invariant
            a@.len() == b@.len(),
            forall|k: int| 0 <= k < i ==> a@[k] == b@[k],
    {
        if a[i] != b[i] {
            assert(a@[i as int] != b@[i as int]);
            return false;
        }
    }
    assert(a@ =~= b@);
    true
}

fn names_in(list: Vec<Vec<u8>>) -> (r: Vec<Vec<u8>>)
    ensures
        split::views(r@) == names(split::views(list@)),
{
    let ghost all = split::views(list@);
    let mut r: Vec<Vec<u8>> = Vec::new();
    assert(split::views(r@) == names(all.take(0)));
    for i in 0..list.len()
        invariant
            all == split::views(list@),
            split::views(r@) == names(all.take(i as int)),
    {
        let ghost was = split::views(r@);
        let piece = &list[i];
        proof {
            assert(all.take(i + 1).drop_last() == all.take(i as int));
            assert(all.take(i + 1).last() == piece@);
            if piece@.len() == 1 && piece@[0] == DOT {
                assert(piece@ == seq![DOT]);
            }
        }
        let silent = piece.len() == 0 || (piece.len() == 1 && piece[0] == DOT && i > 0);
        if !silent {
            let copy = vstd::slice::slice_to_vec(piece.as_slice());
            r.push(copy);
            assert(split::views(r@) == was.push(piece@));
        }
    }
    assert(all.take(all.len() as int) == all);
    r
}

impl FsPath {
    /// The path with these bytes.
    pub fn from_bytes(bytes: Vec<u8>) -> (r: FsPath)
        ensures
            r@ == bytes@,
    {
        FsPath { bytes }
    }

    /// The path that a text spells.
    pub fn from_text(s: &str) -> (r: FsPath)
        ensures
            r@ == encode_utf8(s@),
    {
        FsPath { bytes: s.as_bytes_vec() }
    }

    /// The bytes of the path.
    pub fn as_bytes(&self) -> (r: &[u8])
        ensures
            r@ == self@,
    {
        self.bytes.as_slice()
    }

    /// Whether nothing is spelled at all.
    pub fn is_empty(&self) -> (r: bool)
        ensures
            r == (self@.len() == 0),
    {
        self.bytes.len() == 0
    }

    /// `tail` seen from this path.
    pub fn join(&self, tail: &str) -> (r: FsPath)
        ensures
            r@ == joined(self@, encode_utf8(tail@)),
    {
        let more = tail.as_bytes();
        let mut bytes: Vec<u8> = Vec::new();
        if more.len() == 0 || more[0] != SEPARATOR {
            bytes = vstd::slice::slice_to_vec(self.bytes.as_slice());
            let n = bytes.len();
            if n > 0 && bytes[n - 1] != SEPARATOR {
                bytes.push(SEPARATOR);
            }
        }
        bytes.extend_from_slice(more);
        assert(bytes@ =~= joined(self@, encode_utf8(tail@)));
        FsPath { bytes }
    }

    /// Whether both spell the same path.
    pub fn same_as(&self, other: &FsPath) -> (r: bool)
        ensures
            r == same_path(self@, other@),
    {
        let here = self.bytes.len() > 0 && self.bytes[0] == SEPARATOR;
        let there = other.bytes.len() > 0 && other.bytes[0] == SEPARATOR;
        if here != there {
            return false;
        }
        let a = names_in(split::split_bytes(&self.bytes, SEPARATOR));
        let b = names_in(split::split_bytes(&other.bytes, SEPARATOR));
        let ghost x = split::views(a@);
        let ghost y = split::views(b@);
        if a.len() != b.len() {
            assert(x.len() != y.len());
            return false;
        }
        for i in 0..a.len()
            invariant
                a@.len() == b@.len(),
                x == split::views(a@),
                y == split::views(b@),
                x == names(split::pieces(self@, SEPARATOR)),
                y == names(split::pieces(other@, SEPARATOR)),
                forall|k: int| 0 <= k < i ==> x[k] == y[k],
        {
            if !same_bytes(&a[i], &b[i]) {
                assert(x[i as int] != y[i as int]);
                return false;
            }
        }
        assert(x =~= y);
        true
    }

    /// The path as text to show, with replacement characters for what is not
    /// UTF-8.
    pub fn display(&self) -> (r: String)
        ensures
            r@ == text::text_of_bytes(self@),
    {
        text::lossy_text(self.bytes.as_slice())
    }
}

impl Clone for FsPath {
    fn clone(&self) -> (r: Self)
        ensures
            r@ == self@,
    {
        FsPath { bytes: vstd::slice::slice_to_vec(self.bytes.as_slice()) }
    }
}

impl PartialEq for FsPath {
    fn eq(&self, other: &Self) -> (r: bool) {
        self.same_as(other)
    }
}

impl vstd::std_specs::cmp::PartialEqSpecImpl for FsPath {
    open spec fn obeys_eq_spec() -> bool {
        true
    }

    open spec fn eq_spec(&self, other: &Self) -> bool {
        same_path(self@, other@)
    }
}

/// A path that starts at the root stands for itself wherever it is seen from. Any other
/// stands behind the path it is seen from, and one separator parts the two, whether or not
/// that path ends in one.
pub proof fn paths_are_joined(base: Seq<u8>, tail: Seq<u8>)
    requires
        base.len() > 0,
        base.last() != 47,
    ensures
        tail.len() > 0 && tail[0] == 47 ==> joined(base, tail) == tail,
        tail.len() > 0 && tail[0] != 47 ==> {
            &&& joined(base, tail) == base + seq![47u8] + tail
            &&& joined(base + seq![47u8], tail) == base + seq![47u8] + tail
        },
        joined(Seq::empty(), tail) == tail,
        joined(base, Seq::empty()) == base + seq![47u8],
{
    let none = Seq::<u8>::empty();
    assert(base + seq![47u8] =~= base.push(47));
    assert(base.push(47).last() == 47);
    assert(none + tail =~= tail);
    assert(base.push(47) + none =~= base + seq![47u8]);
}

/// What lies in a directory lies there whether it is looked for in one step or in two.
pub proof fn steps_can_be_taken_together(base: Seq<u8>, dir: Seq<u8>, tail: Seq<u8>)
    requires
        dir.len() > 0,
        dir[0] != 47,
        dir.last() != 47,
        tail.len() > 0,
        tail[0] != 47,
    ensures
        joined(joined(base, dir), tail) == joined(base, dir + seq![47u8] + tail),
{
    let once = joined(base, dir);
    assert(once.last() == dir.last());
    let both = dir + seq![47u8] + tail;
    assert(both[0] == dir[0]);
    assert(joined(once, tail) =~= joined(base, both));
}

/// Every path is itself; where one path is another, that one is it too; and what both are
/// a third one is for both.
pub proof fn being_one_path_is_mutual(a: Seq<u8>, b: Seq<u8>, c: Seq<u8>)
    ensures
        same_path(a, a),
        same_path(a, b) ==> same_path(b, a),
        same_path(a, b) && same_path(b, c) ==> same_path(a, c),
{
}

proof fn names_of_a_sum(a: Seq<Seq<u8>>, b: Seq<Seq<u8>>)
    requires
        a.len() > 0,
    ensures
        names(a + b) == names(a) + names_behind(b),
    decreases b.len(),
{
    if b.len() == 0 {
        assert(a + b =~= a);
        assert(names(a) + names_behind(b) =~= names(a));
    } else {
        names_of_a_sum(a, b.drop_last());
        assert((a + b).drop_last() =~= a + b.drop_last());
        assert((a + b).last() == b.last());
        assert(names(a + b) =~= names(a) + names_behind(b));
    }
}

/// The names among pieces that others stand before.
spec fn names_behind(list: Seq<Seq<u8>>) -> Seq<Seq<u8>>
    decreases list.len(),
{
    if list.len() == 0 {
        Seq::empty()
    } else {
        let before = names_behind(list.drop_last());
        if list.last().len() == 0 || list.last() == seq![DOT] {
            before
        } else {
            before.push(list.last())
        }
    }
}

proof fn names_behind_a_sum(a: Seq<Seq<u8>>, b: Seq<Seq<u8>>)
    ensures
        names_behind(a + b) == names_behind(a) + names_behind(b),
    decreases b.len(),
{
    if b.len() == 0 {
        assert(a + b =~= a);
        assert(names_behind(a) + names_behind(b) =~= names_behind(a));
    } else {
        names_behind_a_sum(a, b.drop_last());
        assert((a + b).drop_last() =~= a + b.drop_last());
        assert((a + b).last() == b.last());
        assert(names_behind(a + b) =~= names_behind(a) + names_behind(b));
    }
}

proof fn first_of_a_sum(a: Seq<u8>, b: Seq<u8>)
    ensures
        is_absolute(a + seq![47u8] + b) == (a.len() == 0 || a[0] == 47),
{
    let whole = a + seq![47u8] + b;
    if a.len() == 0 {
        assert(whole[0] == 47);
    } else {
        assert(whole[0] == a[0]);
    }
}

/// Separators can be doubled, a step to the directory itself leads nowhere, and a separator
/// at the end says nothing.
pub proof fn idle_steps_change_no_path(a: Seq<u8>, b: Seq<u8>)
    ensures
        same_path(a + seq![47u8] + b, a + seq![47u8, 47u8] + b),
        same_path(a + seq![47u8] + b, a + seq![47u8, 46u8, 47u8] + b),
        a.len() > 0 ==> same_path(a, a + seq![47u8]),
{
    let none = Seq::<u8>::empty();
    let dot = seq![46u8];
    split::separators_part(a, b, 47u8);
    split::pieces_hold_no_separator(a, 47u8);
    let x = split::pieces(a, 47u8);
    let y = split::pieces(b, 47u8);
    names_of_a_sum(x, y);
    first_of_a_sum(a, b);
    // A doubled separator.
    split::separators_part(a, none, 47u8);
    split::separators_part(a + seq![47u8], b, 47u8);
    assert(split::pieces(none, 47u8) =~= seq![none]);
    let doubled = a + seq![47u8, 47u8] + b;
    assert(doubled =~= (a + seq![47u8]) + seq![47u8] + b);
    assert(a + seq![47u8] + none =~= a + seq![47u8]);
    assert(split::pieces(doubled, 47u8) =~= x + (seq![none] + y));
    names_of_a_sum(x, seq![none] + y);
    names_behind_a_sum(seq![none], y);
    assert(names_behind(seq![none]) =~= Seq::empty()) by {
        reveal_with_fuel(names_behind, 2);
    }
    assert(names(split::pieces(doubled, 47u8)) =~= names(x) + names_behind(y));
    if a.len() == 0 {
        assert(doubled[0] == 47);
    } else {
        assert(doubled[0] == a[0]);
    }
    // A dot.
    let dotted = a + seq![47u8, 46u8, 47u8] + b;
    assert(!dot.contains(47u8));
    split::separators_part(dot, b, 47u8);
    split::separators_part(a, dot + seq![47u8] + b, 47u8);
    assert(dotted =~= a + seq![47u8] + (dot + seq![47u8] + b));
    assert(split::pieces(dotted, 47u8) == x + (seq![dot] + y));
    names_of_a_sum(x, seq![dot] + y);
    names_behind_a_sum(seq![dot], y);
    assert(names_behind(seq![dot]) =~= Seq::empty()) by {
        reveal_with_fuel(names_behind, 2);
        assert(seq![dot].last() == dot);
    }
    assert(names(split::pieces(dotted, 47u8)) =~= names(x) + names_behind(y));
    if a.len() == 0 {
        assert(dotted[0] == 47);
    } else {
        assert(dotted[0] == a[0]);
    }
    // One at the end.
    if a.len() > 0 {
        names_of_a_sum(x, seq![none]);
        assert(names(x) + names_behind(seq![none]) =~= names(x));
        assert((a + seq![47u8])[0] == a[0]);
    }
}

/// A name in a path: something without a separator that is no dot.
pub open spec fn is_name(piece: Seq<u8>) -> bool {
    piece.len() > 0 && !piece.contains(47u8) && piece != seq![46u8]
}

/// Paths are told apart by what they lie in and by their last names, and a path from the
/// root is none that is not.
pub proof fn names_tell_paths_apart(a: Seq<u8>, x: Seq<u8>, b: Seq<u8>, y: Seq<u8>)
    requires
        is_name(x),
        is_name(y),
        a.len() > 0,
        b.len() > 0,
    ensures
        same_path(a + seq![47u8] + x, b + seq![47u8] + y) <==> same_path(a, b) && x == y,
        a[0] == 47 && b[0] != 47 ==> !same_path(a, b),
{
    split::separators_part(a, x, 47u8);
    split::separators_part(x, x, 47u8);
    split::separators_part(b, y, 47u8);
    split::separators_part(y, y, 47u8);
    split::pieces_hold_no_separator(a, 47u8);
    split::pieces_hold_no_separator(b, 47u8);
    first_of_a_sum(a, x);
    first_of_a_sum(b, y);
    let p = split::pieces(a, 47u8);
    let q = split::pieces(b, 47u8);
    names_of_a_sum(p, seq![x]);
    names_of_a_sum(q, seq![y]);
    assert(names_behind(seq![x]) =~= seq![x] && names_behind(seq![y]) =~= seq![y]) by {
        reveal_with_fuel(names_behind, 2);
    }
    let left = names(p) + seq![x];
    let right = names(q) + seq![y];
    if left == right {
        assert(left.last() == x && right.last() == y);
        assert(left.drop_last() =~= names(p));
        assert(right.drop_last() =~= names(q));
    }
}

} // verus!
