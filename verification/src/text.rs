//! Text as sequences of characters: comparison, searching, trimming, and
//! decimal numbers.

use vstd::prelude::*;
use vstd::utf8::{decode_utf8, valid_utf8};

verus! {

/// `String::push` appends one character.
pub assume_specification[ std::string::String::push ](s: &mut std::string::String, c: char)
    ensures
        final(s)@ == old(s)@.push(c),
;

/// What `String::from_utf8_lossy` makes of bytes that are not valid UTF-8: the
/// valid stretches decoded, with replacement characters for the rest.
pub uninterp spec fn salvaged_text(bytes: Seq<u8>) -> Seq<char>;

/// The text of some bytes: decoded where they are valid UTF-8, salvaged where
/// they are not.
pub open spec fn text_of_bytes(bytes: Seq<u8>) -> Seq<char> {
    if valid_utf8(bytes) {
        decode_utf8(bytes)
    } else {
        salvaged_text(bytes)
    }
}

/// `String::from_utf8_lossy` decodes valid UTF-8 as it stands. On other bytes
/// its result is a function of the bytes alone, which the contract names.
#[verifier::external_body]
pub(crate) fn lossy_text(bytes: &[u8]) -> (s: String)
    ensures
        s@ == if valid_utf8(bytes@) {
            decode_utf8(bytes@)
        } else {
            salvaged_text(bytes@)
        },
{
    String::from_utf8_lossy(bytes).into_owned()
}

/// The characters of `s`, in order.
pub fn chars_of(s: &str) -> (v: Vec<char>)
    ensures
        v@ == s@,
{
    let mut v: Vec<char> = Vec::new();
    for c in it: s.chars()
        invariant
            it.seq() == s@,
            v@ == s@.take(it.index() as int),
    {
        v.push(c);
    }
    v
}

/// The text made of the given characters.
pub fn string_of(v: &Vec<char>) -> (s: String)
    ensures
        s@ == v@,
{
    let mut s = String::new();
    for i in 0..v.len()
        invariant
            s@ == v@.take(i as int),
    {
        s.push(v[i]);
    }
    s
}

/// Whether two texts are the same.
pub fn same_text(a: &str, b: &str) -> (r: bool)
    ensures
        r == (a@ == b@),
{
    let mut x = a.chars();
    let mut y = b.chars();
    let ghost mut i: int = 0;
    loop
        invariant
            0 <= i <= a@.len(),
            i <= b@.len(),
            vstd::std_specs::iter::IteratorSpec::remaining(&x) == a@.skip(i),
            vstd::std_specs::iter::IteratorSpec::remaining(&y) == b@.skip(i),
            vstd::std_specs::iter::IteratorSpec::obeys_prophetic_iter_laws(&x),
            vstd::std_specs::iter::IteratorSpec::obeys_prophetic_iter_laws(&y),
            a@.take(i) == b@.take(i),
        decreases a@.len() - i,
    {
        let c = x.next();
        let d = y.next();
        match (c, d) {
            (Some(c), Some(d)) => {
                if c != d {
                    assert(a@[i] != b@[i]);
                    return false;
                }
                proof {
                    assert(a@.take(i + 1) == a@.take(i).push(c));
                    assert(b@.take(i + 1) == b@.take(i).push(d));
                    i = i + 1;
                }
            },
            (None, None) => {
                assert(a@ == a@.take(i));
                assert(b@ == b@.take(i));
                return true;
            },
            _ => {
                return false;
            },
        }
    }
}

/// What a list of texts says.
pub open spec fn texts_of(list: Seq<String>) -> Seq<Seq<char>> {
    list.map_values(|s: String| s@)
}

/// What an optional text says.
pub open spec fn optional(s: Option<String>) -> Option<Seq<char>> {
    match s {
        Some(t) => Some(t@),
        None => None,
    }
}

/// A text that a NUL can end.
pub open spec fn without_nul(s: Seq<char>) -> bool {
    !s.contains('\0')
}

/// Whether a NUL can end the text, so that it can be handed to a C function.
pub fn is_c_text(s: &str) -> (r: bool)
    ensures
        r == without_nul(s@),
{
    let v = chars_of(s);
    for i in 0..v.len()
        invariant
            v@ == s@,
            forall|k: int| 0 <= k < i ==> v@[k] != '\0',
    {
        if v[i] == '\0' {
            assert(s@[i as int] == '\0');
            return false;
        }
    }
    true
}

/// The ASCII lower-case form of a character; other characters stay as they are.
pub open spec fn ascii_lower(c: char) -> char {
    if 'A' <= c <= 'Z' {
        (c as u32 + 32) as char
    } else {
        c
    }
}

/// Every character in its ASCII lower-case form.
pub open spec fn ascii_lowered(s: Seq<char>) -> Seq<char> {
    s.map_values(|c: char| ascii_lower(c))
}

/// Two texts that differ in nothing but the case of ASCII letters.
pub open spec fn same_ignoring_ascii_case(a: Seq<char>, b: Seq<char>) -> bool {
    ascii_lowered(a) == ascii_lowered(b)
}

/// The ASCII lower-case form of `c`.
pub fn lower_char(c: char) -> (r: char)
    ensures
        r == ascii_lower(c),
{
    if 'A' <= c && c <= 'Z' {
        (c as u8 + 32) as char
    } else {
        c
    }
}

/// Whether two texts differ in nothing but the case of ASCII letters.
pub fn eq_ignore_ascii_case(a: &str, b: &str) -> (r: bool)
    ensures
        r == same_ignoring_ascii_case(a@, b@),
{
    let mut x = a.chars();
    let mut y = b.chars();
    let ghost mut i: int = 0;
    let ghost la = ascii_lowered(a@);
    let ghost lb = ascii_lowered(b@);
    loop
        invariant
            0 <= i <= a@.len(),
            i <= b@.len(),
            vstd::std_specs::iter::IteratorSpec::remaining(&x) == a@.skip(i),
            vstd::std_specs::iter::IteratorSpec::remaining(&y) == b@.skip(i),
            vstd::std_specs::iter::IteratorSpec::obeys_prophetic_iter_laws(&x),
            vstd::std_specs::iter::IteratorSpec::obeys_prophetic_iter_laws(&y),
            la == ascii_lowered(a@),
            lb == ascii_lowered(b@),
            la.take(i) == lb.take(i),
        decreases a@.len() - i,
    {
        let c = x.next();
        let d = y.next();
        match (c, d) {
            (Some(c), Some(d)) => {
                if lower_char(c) != lower_char(d) {
                    assert(la[i] != lb[i]);
                    return false;
                }
                proof {
                    assert(la.take(i + 1) == la.take(i).push(la[i]));
                    assert(lb.take(i + 1) == lb.take(i).push(lb[i]));
                    i = i + 1;
                }
            },
            (None, None) => {
                assert(la == la.take(i));
                assert(lb == lb.take(i));
                return true;
            },
            _ => {
                assert(la.len() == a@.len() && lb.len() == b@.len());
                return false;
            },
        }
    }
}

/// The lower-case form of a character of Latin-1: the capitals of ASCII, and those
/// from U+00C0 to U+00DE but the multiplication sign, have theirs 32 places on.
pub open spec fn latin_lower(c: char) -> char {
    let u = c as u32;
    if 0x41 <= u <= 0x5a || 0xc0 <= u <= 0xde && u != 0xd7 {
        (u + 32) as char
    } else {
        c
    }
}

/// Every character in its lower-case form, of a text in Latin-1.
pub open spec fn latin_lowered(s: Seq<char>) -> Seq<char> {
    s.map_values(|c: char| latin_lower(c))
}

/// Every character is one of Latin-1, that is one below U+0100.
pub open spec fn is_latin(s: Seq<char>) -> bool {
    forall|i: int| 0 <= i < s.len() ==> (#[trigger] s[i]) as u32 <= 0xff
}

/// What `str::to_lowercase` makes of a text that is not all Latin-1.
pub uninterp spec fn unicode_lowered(s: Seq<char>) -> Seq<char>;

/// A text in lower case.
pub open spec fn lowered(s: Seq<char>) -> Seq<char> {
    if is_latin(s) {
        latin_lowered(s)
    } else {
        unicode_lowered(s)
    }
}

/// `str::to_lowercase` gives the lower-case form of a text as Unicode defines
/// it, which for Latin-1 is the lower-case form of each character. On other texts
/// its result is a function of the text alone, which the contract names.
#[verifier::external_body]
pub(crate) fn to_lowercase(s: &str) -> (r: String)
    ensures
        r@ == if is_latin(s@) {
            latin_lowered(s@)
        } else {
            unicode_lowered(s@)
        },
{
    s.to_lowercase()
}

/// Two texts that differ in nothing but the case of letters. Digits have no case,
/// so that a number is the same as itself alone.
pub open spec fn same_ignoring_case(a: Seq<char>, b: Seq<char>) -> bool {
    if is_numeral(a) || is_numeral(b) {
        a == b
    } else {
        lowered(a) == lowered(b)
    }
}

/// Whether two texts differ in nothing but the case of letters, by the rules of
/// Unicode and in no language in particular.
pub fn eq_ignore_case(a: &str, b: &str) -> (r: bool)
    ensures
        r == same_ignoring_case(a@, b@),
{
    if is_number(a) || is_number(b) {
        same_text(a, b)
    } else {
        same_text(to_lowercase(a).as_str(), to_lowercase(b).as_str())
    }
}

/// Texts in Latin-1 that differ in nothing but the case of ASCII letters differ in
/// nothing but the case of letters.
pub proof fn ascii_case_is_case(a: Seq<char>, b: Seq<char>)
    requires
        same_ignoring_ascii_case(a, b),
        is_latin(b),
    ensures
        is_latin(a),
        same_ignoring_case(a, b),
{
    assert(ascii_lowered(a).len() == a.len() && ascii_lowered(b).len() == b.len());
    assert forall|i: int| 0 <= i < a.len() implies (#[trigger] a[i]) as u32 <= 0xff && latin_lower(
        a[i],
    ) == latin_lower(b[i]) && ((is_digit(a[i]) || is_digit(b[i])) ==> a[i] == b[i]) by {
        assert(ascii_lowered(a)[i] == ascii_lower(a[i]));
        assert(ascii_lowered(b)[i] == ascii_lower(b[i]));
        assert(b[i] as u32 <= 0xff);
    }
    assert(latin_lowered(a) =~= latin_lowered(b));
    if is_numeral(b) {
        assert(forall|i: int| 0 <= i < b.len() ==> is_digit(#[trigger] b[i]) && a[i] == b[i]);
        assert(a =~= b);
    } else if is_numeral(a) {
        assert(a =~= b);
    }
}

/// The characters with Unicode's `White_Space` property.
pub open spec fn is_white(c: char) -> bool {
    let u = c as u32;
    ||| 0x9 <= u <= 0xd
    ||| u == 0x20
    ||| u == 0x85
    ||| u == 0xa0
    ||| u == 0x1680
    ||| 0x2000 <= u <= 0x200a
    ||| u == 0x2028
    ||| u == 0x2029
    ||| u == 0x202f
    ||| u == 0x205f
    ||| u == 0x3000
}

/// Whether `c` has Unicode's `White_Space` property.
pub fn is_white_space(c: char) -> (r: bool)
    ensures
        r == is_white(c),
{
    let u: u32 = c as u32;
    (0x9 <= u && u <= 0xd) || u == 0x20 || u == 0x85 || u == 0xa0 || u == 0x1680 || (0x2000 <= u
        && u <= 0x200a) || u == 0x2028 || u == 0x2029 || u == 0x202f || u == 0x205f || u == 0x3000
}

/// `s` without the white space it begins with.
pub open spec fn trimmed_start(s: Seq<char>) -> Seq<char>
    decreases s.len(),
{
    if s.len() > 0 && is_white(s[0]) {
        trimmed_start(s.skip(1))
    } else {
        s
    }
}

/// `s` without the white space it ends with.
pub open spec fn trimmed_end(s: Seq<char>) -> Seq<char>
    decreases s.len(),
{
    if s.len() > 0 && is_white(s.last()) {
        trimmed_end(s.drop_last())
    } else {
        s
    }
}

/// `s` without the white space at either end.
pub open spec fn trimmed(s: Seq<char>) -> Seq<char> {
    trimmed_end(trimmed_start(s))
}

/// The text between two positions.
pub fn slice_text(v: &Vec<char>, from: usize, to: usize) -> (s: String)
    requires
        from <= to <= v@.len(),
    ensures
        s@ == v@.subrange(from as int, to as int),
{
    let mut s = String::new();
    for i in from..to
        invariant
            from <= to <= v@.len(),
            s@ == v@.subrange(from as int, i as int),
    {
        s.push(v[i]);
    }
    s
}

/// `s` without the white space at either end.
pub fn trim(s: &str) -> (r: String)
    ensures
        r@ == trimmed(s@),
{
    let v = chars_of(s);
    let n = v.len();
    let mut from: usize = 0;
    assert(v@ == v@.skip(0));
    while from < n && is_white_space(v[from])
        invariant
            n == v@.len(),
            from <= n,
            trimmed_start(v@) == trimmed_start(v@.skip(from as int)),
        decreases n - from,
    {
        assert(v@.skip(from as int).skip(1) == v@.skip(from + 1));
        from = from + 1;
    }
    assert(trimmed_start(v@) == v@.skip(from as int));
    let mut to: usize = n;
    assert(v@.skip(from as int) == v@.subrange(from as int, to as int));
    while to > from && is_white_space(v[to - 1])
        invariant
            n == v@.len(),
            from <= to <= n,
            trimmed_end(v@.skip(from as int)) == trimmed_end(
                v@.subrange(from as int, to as int),
            ),
        decreases to,
    {
        assert(v@.subrange(from as int, to as int).drop_last() == v@.subrange(
            from as int,
            to - 1,
        ));
        to = to - 1;
    }
    slice_text(&v, from, to)
}

/// `needle` stands in `hay` from position `i` on.
pub open spec fn occurs_at(hay: Seq<char>, needle: Seq<char>, i: int) -> bool {
    &&& 0 <= i
    &&& i + needle.len() <= hay.len()
    &&& hay.subrange(i, i + needle.len()) == needle
}

/// `needle` stands somewhere in `hay`.
pub open spec fn occurs_in(hay: Seq<char>, needle: Seq<char>) -> bool {
    exists|i: int| occurs_at(hay, needle, i)
}

/// Whether `needle` stands in `hay` from position `i` on.
pub fn stands_at(hay: &Vec<char>, needle: &Vec<char>, i: usize) -> (r: bool)
    ensures
        r == occurs_at(hay@, needle@, i as int),
{
    if i > hay.len() || needle.len() > hay.len() - i {
        return false;
    }
    for k in 0..needle.len()
        invariant
            i + needle.len() <= hay.len(),
            forall|j: int| 0 <= j < k ==> hay@[i + j] == #[trigger] needle@[j],
    {
        if hay[i + k] != needle[k] {
            assert(hay@.subrange(i as int, i + needle@.len())[k as int] != needle@[k as int]);
            return false;
        }
    }
    assert(hay@.subrange(i as int, i + needle@.len()) =~= needle@);
    true
}

/// The first position at or after `from` where `needle` stands in `hay`.
pub fn find_from(hay: &Vec<char>, needle: &Vec<char>, from: usize) -> (r: Option<usize>)
    ensures
        match r {
            Some(i) => from <= i && occurs_at(hay@, needle@, i as int) && forall|j: int|
                from <= j < i ==> !occurs_at(hay@, needle@, j),
            None => forall|j: int| from <= j ==> !occurs_at(hay@, needle@, j),
        },
{
    let mut i: usize = from;
    while i <= hay.len() && needle.len() <= hay.len() - i
        invariant
            from <= i,
            i <= hay@.len() + 1 || i == from,
            forall|j: int| from <= j < i ==> !occurs_at(hay@, needle@, j),
        decreases hay@.len() + 1 - i,
    {
        if stands_at(hay, needle, i) {
            return Some(i);
        }
        if i == hay.len() {
            return None;
        }
        i = i + 1;
    }
    None
}

/// The first position at or after `from` where `needle` stands in `hay`.
pub open spec fn first_from(hay: Seq<char>, needle: Seq<char>, from: int) -> Option<int>
    decreases hay.len() - from,
{
    if from < 0 || from + needle.len() > hay.len() {
        None
    } else if occurs_at(hay, needle, from) {
        Some(from)
    } else if from == hay.len() {
        None
    } else {
        first_from(hay, needle, from + 1)
    }
}

/// A position that was found lies where it was looked for, and `needle` stands
/// there.
pub proof fn first_from_bounds(hay: Seq<char>, needle: Seq<char>, from: int)
    ensures
        first_from(hay, needle, from) matches Some(i) ==> from <= i && occurs_at(hay, needle, i),
    decreases hay.len() - from,
{
    if 0 <= from && from + needle.len() <= hay.len() && !occurs_at(hay, needle, from) && from
        < hay.len() {
        first_from_bounds(hay, needle, from + 1);
    }
}

/// Where `needle` stands, and stands nowhere before, it is found.
pub proof fn first_from_is(hay: Seq<char>, needle: Seq<char>, from: int, at: int)
    requires
        0 <= from <= at,
        occurs_at(hay, needle, at),
        forall|j: int| from <= j < at ==> !occurs_at(hay, needle, j),
    ensures
        first_from(hay, needle, from) == Some(at),
    decreases at - from,
{
    if from < at {
        first_from_is(hay, needle, from + 1, at);
    }
}

/// What stands nowhere is not found.
pub proof fn first_from_is_none(hay: Seq<char>, needle: Seq<char>, from: int)
    requires
        0 <= from,
        forall|j: int| from <= j ==> !occurs_at(hay, needle, j),
    ensures
        first_from(hay, needle, from) is None,
    decreases hay.len() - from,
{
    if from + needle.len() <= hay.len() && from < hay.len() {
        first_from_is_none(hay, needle, from + 1);
    }
}

/// The first position at or after `from` where `needle` stands in `hay`.
pub fn find_first(hay: &Vec<char>, needle: &str, from: usize) -> (r: Option<usize>)
    ensures
        match first_from(hay@, needle@, from as int) {
            Some(i) => r matches Some(k) && k == i && from <= i && i + needle@.len() <= hay@.len(),
            None => r is None,
        },
{
    let n = chars_of(needle);
    let r = find_from(hay, &n, from);
    proof {
        match r {
            Some(i) => {
                first_from_is(hay@, needle@, from as int, i as int);
            },
            None => {
                first_from_is_none(hay@, needle@, from as int);
            },
        }
    }
    r
}

/// Whether `needle` stands somewhere in `hay`.
pub fn contains(hay: &str, needle: &str) -> (r: bool)
    ensures
        r == occurs_in(hay@, needle@),
{
    let h = chars_of(hay);
    let n = chars_of(needle);
    match find_from(&h, &n, 0) {
        Some(i) => {
            assert(occurs_at(hay@, needle@, i as int));
            true
        },
        None => {
            assert forall|i: int| !occurs_at(hay@, needle@, i) by {
                if i >= 0 {
                    assert(!occurs_at(h@, n@, i));
                }
            }
            false
        },
    }
}

/// Whether `s` begins with `prefix`.
pub fn starts_with(s: &str, prefix: &str) -> (r: bool)
    ensures
        r == occurs_at(s@, prefix@, 0),
{
    stands_at(&chars_of(s), &chars_of(prefix), 0)
}

/// The first text comes before the second, or is the same: the first character
/// in which they differ decides, and where one of them ends before that, it is
/// the first.
pub open spec fn at_most(a: Seq<char>, b: Seq<char>) -> bool
    decreases a.len(),
{
    if a.len() == 0 {
        true
    } else if b.len() == 0 {
        false
    } else if a[0] != b[0] {
        a[0] < b[0]
    } else {
        at_most(a.skip(1), b.skip(1))
    }
}

/// Whether the first text comes before the second, or is the same.
pub fn is_at_most(a: &str, b: &str) -> (r: bool)
    ensures
        r == at_most(a@, b@),
{
    let mut x = a.chars();
    let mut y = b.chars();
    let ghost mut i: int = 0;
    proof {
        assert(a@.skip(0) == a@);
        assert(b@.skip(0) == b@);
    }
    loop
        invariant
            0 <= i <= a@.len(),
            i <= b@.len(),
            vstd::std_specs::iter::IteratorSpec::remaining(&x) == a@.skip(i),
            vstd::std_specs::iter::IteratorSpec::remaining(&y) == b@.skip(i),
            vstd::std_specs::iter::IteratorSpec::obeys_prophetic_iter_laws(&x),
            vstd::std_specs::iter::IteratorSpec::obeys_prophetic_iter_laws(&y),
            at_most(a@, b@) == at_most(a@.skip(i), b@.skip(i)),
        decreases a@.len() - i,
    {
        let c = x.next();
        let d = y.next();
        match (c, d) {
            (Some(c), Some(d)) => {
                assert(c == a@.skip(i)[0] && d == b@.skip(i)[0]);
                if c != d {
                    return c < d;
                }
                proof {
                    assert(a@.skip(i).skip(1) == a@.skip(i + 1));
                    assert(b@.skip(i).skip(1) == b@.skip(i + 1));
                    i = i + 1;
                }
            },
            (None, _) => {
                return true;
            },
            (Some(_), None) => {
                return false;
            },
        }
    }
}

/// Texts are in one line: any two of them can be compared, a text is at most
/// itself, and no two different ones are each at most the other.
pub proof fn at_most_is_total(a: Seq<char>, b: Seq<char>)
    ensures
        at_most(a, b) || at_most(b, a),
        at_most(a, a),
        at_most(a, b) && at_most(b, a) ==> a == b,
    decreases a.len(),
{
    if a.len() > 0 {
        at_most_is_total(a.skip(1), b.skip(1));
        if b.len() > 0 && a[0] == b[0] && a.skip(1) == b.skip(1) {
            assert(a =~= seq![a[0]] + a.skip(1));
            assert(b =~= seq![b[0]] + b.skip(1));
        }
    } else if b.len() == 0 {
        assert(a =~= b);
    }
}

/// What is at most a text is at most whatever that text is at most.
pub proof fn at_most_is_transitive(a: Seq<char>, b: Seq<char>, c: Seq<char>)
    requires
        at_most(a, b),
        at_most(b, c),
    ensures
        at_most(a, c),
    decreases a.len(),
{
    if a.len() > 0 && b.len() > 0 && c.len() > 0 && a[0] == b[0] && b[0] == c[0] {
        at_most_is_transitive(a.skip(1), b.skip(1), c.skip(1));
    }
}

/// The character of a decimal digit.
pub open spec fn digit_char(d: nat) -> char {
    (48 + d) as char
}

/// An ASCII decimal digit.
pub open spec fn is_digit(c: char) -> bool {
    '0' <= c <= '9'
}

/// Every character is an ASCII decimal digit.
pub open spec fn all_digits(s: Seq<char>) -> bool {
    forall|i: int| 0 <= i < s.len() ==> is_digit(#[trigger] s[i])
}

/// One or more ASCII decimal digits, and nothing else.
pub open spec fn is_numeral(s: Seq<char>) -> bool {
    s.len() > 0 && all_digits(s)
}

/// Whether a text is made of ASCII decimal digits, one or more.
pub fn is_number(s: &str) -> (r: bool)
    ensures
        r == is_numeral(s@),
{
    let chars = chars_of(s);
    for i in 0..chars.len()
        invariant
            chars@ == s@,
            forall|k: int| 0 <= k < i ==> is_digit(#[trigger] chars@[k]),
    {
        if !('0' <= chars[i] && chars[i] <= '9') {
            assert(!is_digit(s@[i as int]));
            return false;
        }
    }
    chars.len() > 0
}

/// The number that a run of digits denotes.
pub open spec fn digits_value(s: Seq<char>) -> nat
    decreases s.len(),
{
    if s.len() == 0 {
        0
    } else {
        digits_value(s.drop_last()) * 10 + (s.last() as u32 - 48) as nat
    }
}

/// A natural number in decimal, without leading zeros.
pub open spec fn decimal(n: nat) -> Seq<char>
    decreases n,
{
    if n < 10 {
        seq![digit_char(n)]
    } else {
        decimal(n / 10).push(digit_char(n % 10))
    }
}

/// An integer in decimal, with a minus sign where it is negative.
pub open spec fn signed_decimal(i: int) -> Seq<char> {
    if i < 0 {
        seq!['-'] + decimal((-i) as nat)
    } else {
        decimal(i as nat)
    }
}

/// A natural number in decimal, filled up with zeros on the left to `width`.
pub open spec fn padded_decimal(n: nat, width: nat) -> Seq<char> {
    let d = decimal(n);
    if d.len() < width {
        Seq::new((width - d.len()) as nat, |i: int| '0') + d
    } else {
        d
    }
}

/// Appends `n` in decimal.
pub fn push_decimal(out: &mut String, n: u64)
    ensures
        final(out)@ == old(out)@ + decimal(n as nat),
    decreases n,
{
    if n >= 10 {
        push_decimal(out, n / 10);
    }
    out.push((48 + (n % 10) as u8) as char);
}

/// Appends `i` in decimal, with a minus sign where it is negative.
pub fn push_signed(out: &mut String, i: i64)
    requires
        i > i64::MIN,
    ensures
        final(out)@ == old(out)@ + signed_decimal(i as int),
{
    if i < 0 {
        out.push('-');
        push_decimal(out, (-i) as u64);
    } else {
        push_decimal(out, i as u64);
    }
}

/// `n` in decimal.
pub fn decimal_text(n: u64) -> (s: String)
    ensures
        s@ == decimal(n as nat),
{
    let mut s = String::new();
    push_decimal(&mut s, n);
    s
}

/// `i` in decimal.
pub fn signed_text(i: i32) -> (s: String)
    ensures
        s@ == signed_decimal(i as int),
{
    let mut s = String::new();
    push_signed(&mut s, i as i64);
    s
}

/// Appends `n` in decimal, filled up with zeros to `width`.
pub fn push_padded(out: &mut String, n: u64, width: usize)
    ensures
        final(out)@ == old(out)@ + padded_decimal(n as nat, width as nat),
{
    let d = decimal_text(n);
    let digits = chars_of(d.as_str());
    let mut zeros: usize = digits.len();
    let ghost before = out@;
    while zeros < width
        invariant
            digits@ == decimal(n as nat),
            digits@.len() <= zeros,
            zeros <= width || zeros == digits@.len(),
            out@ == before + Seq::new((zeros - digits@.len()) as nat, |i: int| '0'),
        decreases width - zeros,
    {
        out.push('0');
        assert(out@ =~= before + Seq::new((zeros + 1 - digits@.len()) as nat, |i: int| '0'));
        zeros = zeros + 1;
    }
    out.append(d.as_str());
    assert(out@ =~= before + padded_decimal(n as nat, width as nat));
}

/// What reading `s` as an unsigned number of at most `max` gives: an optional
/// plus sign and then one or more digits, and nothing else.
pub open spec fn read_unsigned(s: Seq<char>, max: nat) -> Option<nat> {
    let body = if s.len() > 0 && s[0] == '+' {
        s.skip(1)
    } else {
        s
    };
    if body.len() > 0 && all_digits(body) && digits_value(body) <= max {
        Some(digits_value(body))
    } else {
        None
    }
}

/// What reading `s` as an `i32` gives: an optional sign and then one or more
/// digits, and nothing else.
pub open spec fn read_i32(s: Seq<char>) -> Option<int> {
    if s.len() > 0 && s[0] == '-' {
        let body = s.skip(1);
        if body.len() > 0 && all_digits(body) && digits_value(body) <= 0x8000_0000 {
            Some(-(digits_value(body) as int))
        } else {
            None
        }
    } else {
        match read_unsigned(s, 0x7fff_ffff) {
            Some(n) => Some(n as int),
            None => None,
        }
    }
}

/// What reading `s` as a `u32` gives.
pub open spec fn read_u32(s: Seq<char>) -> Option<nat> {
    read_unsigned(s, 0xffff_ffff)
}

proof fn digits_value_grows(s: Seq<char>, k: int)
    requires
        0 <= k <= s.len(),
        all_digits(s),
    ensures
        digits_value(s.take(k)) <= digits_value(s),
    decreases s.len(),
{
    if k < s.len() {
        digits_value_grows(s.drop_last(), k);
        assert(s.drop_last().take(k) == s.take(k));
    } else {
        assert(s.take(k) == s);
    }
}

/// Reads the digits from `from` on as a number of at most `max`.
fn parse_digits(v: &Vec<char>, from: usize, max: u64) -> (r: Option<u64>)
    requires
        from <= v@.len(),
        max <= 0xffff_ffff,
    ensures
        ({
            let body = v@.skip(from as int);
            if body.len() > 0 && all_digits(body) && digits_value(body) <= max {
                r matches Some(n) && n == digits_value(body)
            } else {
                r is None
            }
        }),
{
    if from == v.len() {
        return None;
    }
    let ghost body = v@.skip(from as int);
    let mut value: u64 = 0;
    for i in from..v.len()
        invariant
            from <= v@.len(),
            max <= 0xffff_ffff,
            value <= max,
            body == v@.skip(from as int),
            all_digits(body.take(i - from)),
            value == digits_value(body.take(i - from)),
    {
        let c = v[i];
        if !('0' <= c && c <= '9') {
            assert(!is_digit(body[i - from]));
            return None;
        }
        value = value * 10 + (c as u32 - 48) as u64;
        proof {
            let next = body.take(i + 1 - from);
            assert(next.drop_last() == body.take(i - from));
            assert(next.last() == c);
            assert forall|k: int| 0 <= k < next.len() implies is_digit(#[trigger] next[k]) by {
                if k < i - from {
                    assert(body.take(i - from)[k] == next[k]);
                }
            }
        }
        if value > max {
            proof {
                if all_digits(body) {
                    digits_value_grows(body, i + 1 - from);
                }
            }
            return None;
        }
    }
    assert(body.take(body.len() as int) == body);
    Some(value)
}

/// Reads `s` as a `u32`.
pub fn parse_u32(s: &str) -> (r: Option<u32>)
    ensures
        match read_u32(s@) {
            Some(n) => r matches Some(x) && x == n,
            None => r is None,
        },
{
    let v = chars_of(s);
    assert(v@.skip(0) == v@);
    let from: usize = if v.len() > 0 && v[0] == '+' {
        1
    } else {
        0
    };
    match parse_digits(&v, from, 0xffff_ffff) {
        Some(n) => Some(n as u32),
        None => None,
    }
}

/// Reads `s` as an `i32`.
pub fn parse_i32(s: &str) -> (r: Option<i32>)
    ensures
        match read_i32(s@) {
            Some(n) => r matches Some(x) && x == n,
            None => r is None,
        },
{
    let v = chars_of(s);
    assert(v@.skip(0) == v@);
    if v.len() > 0 && v[0] == '-' {
        match parse_digits(&v, 1, 0x8000_0000) {
            Some(n) => Some((-(n as i64)) as i32),
            None => None,
        }
    } else {
        let from: usize = if v.len() > 0 && v[0] == '+' {
            1
        } else {
            0
        };
        match parse_digits(&v, from, 0x7fff_ffff) {
            Some(n) => Some(n as i32),
            None => None,
        }
    }
}

/// A number written in decimal is a run of digits that denotes it.
pub proof fn decimal_denotes(n: nat)
    ensures
        decimal(n).len() > 0,
        all_digits(decimal(n)),
        digits_value(decimal(n)) == n,
    decreases n,
{
    if n < 10 {
        assert(decimal(n).drop_last() == Seq::<char>::empty());
        assert(digits_value(decimal(n)) == n) by {
            reveal_with_fuel(digits_value, 2);
        }
    } else {
        decimal_denotes(n / 10);
        assert(decimal(n).drop_last() == decimal(n / 10));
    }
}

/// Reading an integer back from its decimal text gives that integer.
pub proof fn signed_decimal_reads_back(i: int)
    requires
        i32::MIN <= i <= i32::MAX,
    ensures
        read_i32(signed_decimal(i)) == Some(i),
{
    if i < 0 {
        decimal_denotes((-i) as nat);
        assert(signed_decimal(i).skip(1) == decimal((-i) as nat));
    } else {
        decimal_denotes(i as nat);
        assert(is_digit(decimal(i as nat)[0]));
    }
}

/// Reading a `u32` back from its decimal text gives that number.
pub proof fn decimal_reads_back(n: nat)
    requires
        n <= u32::MAX,
    ensures
        read_u32(decimal(n)) == Some(n),
{
    decimal_denotes(n);
    assert(is_digit(decimal(n)[0]));
}

/// Decimal text has no white space at either end to lose.
pub proof fn signed_decimal_is_trim(i: int)
    ensures
        trimmed(signed_decimal(i)) == signed_decimal(i),
{
    let s = signed_decimal(i);
    let n = if i < 0 {
        (-i) as nat
    } else {
        i as nat
    };
    decimal_denotes(n);
    let d = decimal(n);
    assert(is_digit(d[0]) && is_digit(d.last()));
    assert(s.last() == d.last());
    assert(!is_white(s[0]) && !is_white(s.last()));
}

/// Ten to the power of a number.
pub open spec fn ten_to(width: nat) -> nat
    decreases width,
{
    if width == 0 {
        1
    } else {
        10 * ten_to((width - 1) as nat)
    }
}

/// A number padded to a width that it fits is as long as that width, and its last
/// digit stands behind the others.
pub proof fn padded_decimal_parts(n: nat, width: nat)
    requires
        width > 0,
        n < ten_to(width),
    ensures
        padded_decimal(n, width).len() == width,
        width == 1 ==> padded_decimal(n, width) == seq![digit_char(n)],
        width > 1 ==> n / 10 < ten_to((width - 1) as nat) && padded_decimal(n, width)
            == padded_decimal(n / 10, (width - 1) as nat).push(digit_char(n % 10)),
    decreases width,
{
    let less = (width - 1) as nat;
    if width == 1 {
        assert(ten_to(1) == 10) by {
            reveal_with_fuel(ten_to, 2);
        }
    } else {
        padded_decimal_parts(n / 10, less);
        if n < 10 {
            assert(n / 10 == 0 && n % 10 == n);
            assert(decimal(0) == seq![digit_char(0)]);
            assert(padded_decimal(0, less) =~= Seq::new(less, |i: int| '0'));
            assert(padded_decimal(n, width) =~= Seq::new(less, |i: int| '0').push(digit_char(n)));
        } else {
            let front = decimal(n / 10);
            assert(decimal(n) == front.push(digit_char(n % 10)));
            assert(padded_decimal(n, width) =~= padded_decimal(n / 10, less).push(
                digit_char(n % 10),
            ));
        }
    }
}

/// Texts with the same front are ordered by what comes behind it.
pub proof fn same_front_is_passed_over(front: Seq<char>, a: Seq<char>, b: Seq<char>)
    ensures
        at_most(front + a, front + b) == at_most(a, b),
    decreases front.len(),
{
    if front.len() == 0 {
        assert(front + a == a);
        assert(front + b == b);
    } else {
        same_front_is_passed_over(front.skip(1), a, b);
        assert((front + a).skip(1) == front.skip(1) + a);
        assert((front + b).skip(1) == front.skip(1) + b);
    }
}

/// Different fronts of the same length decide the order of texts.
pub proof fn different_fronts_decide(x: Seq<char>, y: Seq<char>, a: Seq<char>, b: Seq<char>)
    requires
        x.len() == y.len(),
        x != y,
    ensures
        at_most(x + a, y + b) == at_most(x, y),
    decreases x.len(),
{
    if x.len() == 0 {
        assert(x == y);
    } else {
        assert((x + a).skip(1) == x.skip(1) + a);
        assert((y + b).skip(1) == y.skip(1) + b);
        if x[0] == y[0] {
            if x.skip(1) == y.skip(1) {
                assert(x == seq![x[0]] + x.skip(1));
                assert(y == seq![y[0]] + y.skip(1));
            }
            different_fronts_decide(x.skip(1), y.skip(1), a, b);
        }
    }
}

/// Numbers padded to one width are ordered as the numbers are.
pub proof fn padded_decimals_are_ordered(n: nat, m: nat, width: nat)
    requires
        width > 0,
        n < m < ten_to(width),
    ensures
        at_most(padded_decimal(n, width), padded_decimal(m, width)),
        padded_decimal(n, width) != padded_decimal(m, width),
    decreases width,
{
    padded_decimal_parts(n, width);
    padded_decimal_parts(m, width);
    let a = seq![digit_char(n % 10)];
    let b = seq![digit_char(m % 10)];
    if width == 1 {
        assert(ten_to(1) == 10) by {
            reveal_with_fuel(ten_to, 2);
        }
        assert(n % 10 == n && m % 10 == m);
        assert(a[0] < b[0]);
    } else {
        let less = (width - 1) as nat;
        let x = padded_decimal(n / 10, less);
        let y = padded_decimal(m / 10, less);
        assert(padded_decimal(n, width) == x + a);
        assert(padded_decimal(m, width) == y + b);
        padded_decimal_parts(n / 10, less);
        padded_decimal_parts(m / 10, less);
        if n / 10 == m / 10 {
            assert(n % 10 < m % 10);
            assert(a[0] < b[0]);
            same_front_is_passed_over(x, a, b);
            assert((x + a)[x.len() as int] == a[0]);
            assert((y + b)[x.len() as int] == b[0]);
        } else {
            padded_decimals_are_ordered(n / 10, m / 10, less);
            different_fronts_decide(x, y, a, b);
            if x + a == y + b {
                assert(x == (x + a).take(x.len() as int));
                assert(y == (y + b).take(y.len() as int));
            }
        }
    }
}

/// Behind the same front, the lesser of two numbers padded to one width comes
/// first, whatever follows.
pub proof fn padded_numbers_decide(
    front: Seq<char>,
    n: nat,
    m: nat,
    width: nat,
    a: Seq<char>,
    b: Seq<char>,
)
    requires
        width > 0,
        n < m < ten_to(width),
    ensures
        at_most(
            front + (padded_decimal(n, width) + a),
            front + (padded_decimal(m, width) + b),
        ),
        front + (padded_decimal(n, width) + a) != front + (padded_decimal(m, width) + b),
{
    let x = padded_decimal(n, width);
    let y = padded_decimal(m, width);
    padded_decimal_parts(n, width);
    padded_decimal_parts(m, width);
    padded_decimals_are_ordered(n, m, width);
    different_fronts_decide(x, y, a, b);
    same_front_is_passed_over(front, x + a, y + b);
    let k = front.len() as int;
    let w = width as int;
    if front + (x + a) == front + (y + b) {
        assert((front + (x + a)).subrange(k, k + w) == x);
        assert((front + (y + b)).subrange(k, k + w) == y);
    }
}

/// White space at the ends of a text is cut off, and nothing else.
pub proof fn white_space_at_the_ends_is_cut(front: Seq<char>, body: Seq<char>, back: Seq<char>)
    requires
        forall|i: int| 0 <= i < front.len() ==> is_white(#[trigger] front[i]),
        forall|i: int| 0 <= i < back.len() ==> is_white(#[trigger] back[i]),
        body.len() > 0 ==> !is_white(body[0]) && !is_white(body[body.len() - 1]),
    ensures
        trimmed(front + body + back) == body,
    decreases front.len() + back.len(),
{
    let s = front + body + back;
    if front.len() > 0 {
        assert(is_white(front[0]));
        let less = front.skip(1);
        assert forall|i: int| 0 <= i < less.len() implies is_white(#[trigger] less[i]) by {
            assert(less[i] == front[i + 1]);
        }
        white_space_at_the_ends_is_cut(less, body, back);
        assert(s[0] == front[0]);
        assert(s.skip(1) =~= less + body + back);
    } else if body.len() > 0 {
        assert(s[0] == body[0]);
        assert(s =~= body + back);
        end_is_cut(body, back);
    } else {
        assert(s =~= back);
        all_white_is_cut(back);
    }
}

proof fn end_is_cut(body: Seq<char>, back: Seq<char>)
    requires
        forall|i: int| 0 <= i < back.len() ==> is_white(#[trigger] back[i]),
        body.len() > 0,
        !is_white(body[body.len() - 1]),
    ensures
        trimmed_end(body + back) == body,
    decreases back.len(),
{
    if back.len() == 0 {
        assert(body + back =~= body);
    } else {
        assert(is_white(back[back.len() - 1]));
        assert((body + back).drop_last() =~= body + back.drop_last());
        end_is_cut(body, back.drop_last());
    }
}

proof fn all_white_is_cut(s: Seq<char>)
    requires
        forall|i: int| 0 <= i < s.len() ==> is_white(#[trigger] s[i]),
    ensures
        trimmed(s) == Seq::<char>::empty(),
    decreases s.len(),
{
    if s.len() > 0 {
        assert(is_white(s[0]));
        let less = s.skip(1);
        assert forall|i: int| 0 <= i < less.len() implies is_white(#[trigger] less[i]) by {
            assert(less[i] == s[i + 1]);
        }
        all_white_is_cut(less);
    }
}

/// Trimming a text takes it out of white space: what is left is a stretch of the
/// text with nothing but white space before and behind it, and none at its ends.
pub proof fn trimming_leaves_a_stretch(s: Seq<char>)
    ensures
        exists|front: Seq<char>, back: Seq<char>|
            {
                &&& s == #[trigger] (front + trimmed(s) + back)
                &&& forall|i: int| 0 <= i < front.len() ==> is_white(#[trigger] front[i])
                &&& forall|i: int| 0 <= i < back.len() ==> is_white(#[trigger] back[i])
            },
        trimmed(s).len() > 0 ==> !is_white(trimmed(s)[0]) && !is_white(
            trimmed(s)[trimmed(s).len() - 1],
        ),
{
    let front = start_is_white(s);
    let kept = trimmed_start(s);
    let back = end_is_white(kept);
    assert(s =~= front + trimmed(s) + back);
    if trimmed(s).len() > 0 {
        assert(trimmed(s)[0] == kept[0]);
    }
}

proof fn start_is_white(s: Seq<char>) -> (front: Seq<char>)
    ensures
        s == front + trimmed_start(s),
        forall|i: int| 0 <= i < front.len() ==> is_white(#[trigger] front[i]),
        trimmed_start(s).len() > 0 ==> !is_white(trimmed_start(s)[0]),
    decreases s.len(),
{
    if s.len() > 0 && is_white(s[0]) {
        let rest = start_is_white(s.skip(1));
        let front = seq![s[0]] + rest;
        assert(s =~= seq![s[0]] + s.skip(1));
        assert(front + trimmed_start(s) =~= seq![s[0]] + (rest + trimmed_start(s)));
        front
    } else {
        let front = Seq::<char>::empty();
        assert(s =~= front + trimmed_start(s));
        front
    }
}

proof fn end_is_white(s: Seq<char>) -> (back: Seq<char>)
    ensures
        s == trimmed_end(s) + back,
        forall|i: int| 0 <= i < back.len() ==> is_white(#[trigger] back[i]),
        trimmed_end(s).len() > 0 ==> !is_white(trimmed_end(s)[trimmed_end(s).len() - 1]),
    decreases s.len(),
{
    if s.len() > 0 && is_white(s.last()) {
        let rest = end_is_white(s.drop_last());
        let back = rest.push(s.last());
        assert(s =~= s.drop_last().push(s.last()));
        assert(trimmed_end(s) + back =~= (trimmed_end(s) + rest).push(s.last()));
        back
    } else {
        let back = Seq::<char>::empty();
        assert(s =~= trimmed_end(s) + back);
        back
    }
}

/// What a keyboard has for white space is white space, and no letter, digit or sign
/// of ASCII is.
pub proof fn keys_are_white_or_not(c: char)
    ensures
        c == ' ' || c == '\t' || c == '\n' || c == '\r' ==> is_white(c),
        '!' <= c <= '~' ==> !is_white(c),
{
}

/// In lower case a text of Latin-1 keeps its length; its capitals have become the
/// letters 32 places on, and everything else stays as it is.
pub proof fn capitals_are_lowered(s: Seq<char>, i: int)
    requires
        forall|k: int| 0 <= k < s.len() ==> (#[trigger] s[k]) as u32 <= 0xff,
        0 <= i < s.len(),
    ensures
        lowered(s).len() == s.len(),
        'A' <= s[i] <= 'Z' ==> lowered(s)[i] as u32 == s[i] as u32 + 32,
        0xc0 <= s[i] as u32 <= 0xde && s[i] as u32 != 0xd7 ==> lowered(s)[i] as u32 == s[i] as u32
            + 32,
        s[i] as u32 <= 0x40 || 0x5b <= s[i] as u32 <= 0x7f ==> lowered(s)[i] == s[i],
{
    assert(is_latin(s));
    assert(lowered(s)[i] == latin_lower(s[i]));
}

/// Texts are the same but for the case of ASCII letters exactly where each
/// character of one is that of the other, or the same letter in the other case.
pub proof fn letters_match_in_either_case(a: Seq<char>, b: Seq<char>)
    ensures
        same_ignoring_ascii_case(a, b) <==> a.len() == b.len() && forall|i: int|
            0 <= i < a.len() ==> {
                ||| (#[trigger] a[i]) == b[i]
                ||| 'A' <= a[i] <= 'Z' && b[i] as u32 == a[i] as u32 + 32
                ||| 'A' <= b[i] <= 'Z' && a[i] as u32 == b[i] as u32 + 32
            },
{
    let (x, y) = (ascii_lowered(a), ascii_lowered(b));
    assert(x.len() == a.len() && y.len() == b.len());
    if same_ignoring_ascii_case(a, b) {
        assert forall|i: int| 0 <= i < a.len() implies {
            ||| (#[trigger] a[i]) == b[i]
            ||| 'A' <= a[i] <= 'Z' && b[i] as u32 == a[i] as u32 + 32
            ||| 'A' <= b[i] <= 'Z' && a[i] as u32 == b[i] as u32 + 32
        } by {
            assert(x[i] == ascii_lower(a[i]) && y[i] == ascii_lower(b[i]));
        }
    }
    if a.len() == b.len() && forall|i: int|
        0 <= i < a.len() ==> {
            ||| (#[trigger] a[i]) == b[i]
            ||| 'A' <= a[i] <= 'Z' && b[i] as u32 == a[i] as u32 + 32
            ||| 'A' <= b[i] <= 'Z' && a[i] as u32 == b[i] as u32 + 32
        } {
        assert forall|i: int| 0 <= i < a.len() implies x[i] == y[i] by {
            assert(a[i] == a[i]);
            assert(x[i] == ascii_lower(a[i]) && y[i] == ascii_lower(b[i]));
        }
        assert(x =~= y);
    }
}

/// The first character in which texts differ decides their order, and a text comes
/// before those that it is the beginning of.
pub proof fn the_first_difference_decides(
    front: Seq<char>,
    c: char,
    d: char,
    x: Seq<char>,
    y: Seq<char>,
)
    requires
        c < d,
    ensures
        at_most(front + (seq![c] + x), front + (seq![d] + y)),
        !at_most(front + (seq![d] + y), front + (seq![c] + x)),
        at_most(front, front + x),
        x.len() > 0 ==> !at_most(front + x, front),
{
    let (a, b) = (seq![c] + x, seq![d] + y);
    same_front_is_passed_over(front, a, b);
    same_front_is_passed_over(front, b, a);
    assert(a[0] == c && b[0] == d);
    let none = Seq::<char>::empty();
    same_front_is_passed_over(front, none, x);
    same_front_is_passed_over(front, x, none);
    assert(front + none =~= front);
}

/// The number that a run of digits denotes does not change with zeros before it.
pub proof fn leading_zeros_count_nothing(s: Seq<char>)
    ensures
        digits_value(seq!['0'] + s) == digits_value(s),
    decreases s.len(),
{
    let t = seq!['0'] + s;
    if s.len() == 0 {
        assert(t.drop_last() =~= Seq::<char>::empty());
        reveal_with_fuel(digits_value, 2);
    } else {
        assert(t.drop_last() =~= seq!['0'] + s.drop_last());
        leading_zeros_count_nothing(s.drop_last());
    }
}

/// A number may stand behind a plus sign, and behind a zero.
pub proof fn signs_and_zeros_are_read(n: nat)
    requires
        n <= 0x7fff_ffff,
    ensures
        read_i32(seq!['+'] + decimal(n)) == Some(n as int),
        read_i32(seq!['0'] + decimal(n)) == Some(n as int),
        read_u32(seq!['+'] + decimal(n)) == Some(n),
        read_u32(seq!['0'] + decimal(n)) == Some(n),
{
    decimal_denotes(n);
    let d = decimal(n);
    assert((seq!['+'] + d).skip(1) =~= d);
    leading_zeros_count_nothing(d);
    let z = seq!['0'] + d;
    assert forall|i: int| 0 <= i < z.len() implies is_digit(#[trigger] z[i]) by {
        if i > 0 {
            assert(z[i] == d[i - 1]);
        }
    }
}

/// What holds anything but digits behind its first character is no number, nor is a
/// number that is too large.
pub proof fn other_texts_are_no_numbers(s: Seq<char>, i: int)
    requires
        0 < i < s.len(),
        !('0' <= s[i] <= '9'),
    ensures
        read_i32(s) is None,
        read_u32(s) is None,
{
    assert(s.skip(1)[i - 1] == s[i]);
    assert(!is_digit(s[i]));
    assert(!is_digit(s.skip(1)[i - 1]));
}

/// A number above the largest of its type is refused, not cut down.
pub proof fn large_numbers_are_refused(n: nat)
    ensures
        n > 0x7fff_ffff ==> read_i32(decimal(n)) is None,
        n > 0xffff_ffff ==> read_u32(decimal(n)) is None,
{
    decimal_denotes(n);
    assert(is_digit(decimal(n)[0]));
}

/// A text stands in another exactly where the other is made of something, the text,
/// and something more.
pub proof fn occurring_is_standing_between(hay: Seq<char>, needle: Seq<char>)
    ensures
        occurs_in(hay, needle) <==> exists|a: Seq<char>, b: Seq<char>|
            hay == #[trigger] (a + needle + b),
{
    if occurs_in(hay, needle) {
        let i = choose|i: int| occurs_at(hay, needle, i);
        let a = hay.take(i);
        let b = hay.skip(i + needle.len());
        assert(hay =~= a + needle + b);
    }
    if exists|a: Seq<char>, b: Seq<char>| hay == #[trigger] (a + needle + b) {
        let (a, b) = choose|a: Seq<char>, b: Seq<char>| hay == #[trigger] (a + needle + b);
        let i = a.len() as int;
        assert(hay.subrange(i, i + needle.len()) =~= needle);
        assert(occurs_at(hay, needle, i));
    }
}

/// Texts of Latin-1 are the same but for the case of letters exactly where each character
/// of one is that of the other, or the same letter in the other case.
pub proof fn latin_letters_match_in_either_case(a: Seq<char>, b: Seq<char>)
    requires
        forall|k: int| 0 <= k < a.len() ==> (#[trigger] a[k]) as u32 <= 0xff,
        forall|k: int| 0 <= k < b.len() ==> (#[trigger] b[k]) as u32 <= 0xff,
    ensures
        same_ignoring_case(a, b) <==> a.len() == b.len() && forall|i: int|
            0 <= i < a.len() ==> {
                ||| (#[trigger] a[i]) == b[i]
                ||| is_latin_capital(a[i]) && b[i] as u32 == a[i] as u32 + 32
                ||| is_latin_capital(b[i]) && a[i] as u32 == b[i] as u32 + 32
            },
{
    assert(is_latin(a) && is_latin(b));
    let (x, y) = (latin_lowered(a), latin_lowered(b));
    assert(x.len() == a.len() && y.len() == b.len());
    if same_ignoring_case(a, b) {
        assert(x == y);
        assert forall|i: int| 0 <= i < a.len() implies {
            ||| (#[trigger] a[i]) == b[i]
            ||| is_latin_capital(a[i]) && b[i] as u32 == a[i] as u32 + 32
            ||| is_latin_capital(b[i]) && a[i] as u32 == b[i] as u32 + 32
        } by {
            assert(x[i] == latin_lower(a[i]) && y[i] == latin_lower(b[i]));
            let (c, d): (char, char) = (a[i], b[i]);
            vstd::utf8::char_u32_cast(c, c as u32);
            vstd::utf8::char_u32_cast(d, d as u32);
            assert(c as u32 <= 0xff && d as u32 <= 0xff);
            assert(latin_lower(c) as u32 == if is_latin_capital(c) {
                (c as u32 + 32) as u32
            } else {
                c as u32
            });
            assert(latin_lower(d) as u32 == if is_latin_capital(d) {
                (d as u32 + 32) as u32
            } else {
                d as u32
            });
            assert(c as u32 == d as u32 ==> c == d);
        }
    }
    if a.len() == b.len() && forall|i: int|
        0 <= i < a.len() ==> {
            ||| (#[trigger] a[i]) == b[i]
            ||| is_latin_capital(a[i]) && b[i] as u32 == a[i] as u32 + 32
            ||| is_latin_capital(b[i]) && a[i] as u32 == b[i] as u32 + 32
        } {
        assert forall|i: int| 0 <= i < a.len() implies x[i] == y[i] && ((is_digit(a[i])
            || is_digit(b[i])) ==> a[i] == b[i]) by {
            assert(a[i] == a[i]);
            assert(x[i] == latin_lower(a[i]) && y[i] == latin_lower(b[i]));
            assert(a[i] as u32 <= 0xff && b[i] as u32 <= 0xff);
        }
        assert(x =~= y);
        if is_numeral(a) || is_numeral(b) {
            assert forall|i: int| 0 <= i < a.len() implies a[i] == b[i] by {
                assert(is_digit(a[i]) || is_digit(b[i]));
            }
            assert(a =~= b);
        }
    }
}

/// A capital letter of Latin-1.
pub open spec fn is_latin_capital(c: char) -> bool {
    0x41 <= c as u32 <= 0x5a || 0xc0 <= c as u32 <= 0xde && c as u32 != 0xd7
}

/// A number is written without leading zeros, so that one that is not zero begins with
/// another digit, and with a minus sign only where it is negative.
pub proof fn numbers_have_no_leading_zeros(n: nat)
    ensures
        n > 0 ==> '1' <= decimal(n)[0] <= '9',
        decimal(0) == seq!['0'],
        n > 0 ==> signed_decimal(-(n as int)) == seq!['-'] + decimal(n),
        signed_decimal(n as int) == decimal(n),
    decreases n,
{
    if n >= 10 {
        numbers_have_no_leading_zeros(n / 10);
        decimal_denotes(n / 10);
        assert(decimal(n)[0] == decimal(n / 10)[0]);
    }
    assert(decimal(0) =~= seq!['0']);
}

/// Padding puts zeros in front of a number, as many as it takes to make up the width, and
/// none where it is as wide already.
pub proof fn padding_puts_zeros_in_front(n: nat, zeros: nat)
    ensures
        padded_decimal(n, decimal(n).len() + zeros) == Seq::new(zeros, |i: int| '0') + decimal(n),
        forall|width: nat|
            width <= decimal(n).len() ==> #[trigger] padded_decimal(n, width) == decimal(n),
{
    assert(padded_decimal(n, decimal(n).len() + zeros) =~= Seq::new(zeros, |i: int| '0') + decimal(
        n,
    ));
}

} // verus!
