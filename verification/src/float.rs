//! Single-precision real numbers by their bit patterns.
//!
//! A schema stores real numbers as IEEE 754 `binary32`. The library carries
//! such a number as its 32 bits: it orders the patterns, cuts them down to
//! integers and makes patterns of integers. Decimal text is made and read by
//! the caller, which hands over what came out as plain values.

use vstd::arithmetic::power2::pow2;
use vstd::hash_map::StringHashMap;
use vstd::prelude::*;

verus! {

/// The pattern of the lowest finite number.
pub const LOWEST: u32 = 0xff7f_ffff;

/// The pattern of the highest finite number.
pub const HIGHEST: u32 = 0x7f7f_ffff;

/// The sign bit is set.
pub open spec fn is_negative(bits: u32) -> bool {
    bits >= 0x8000_0000
}

/// The exponent field.
pub open spec fn exponent_field(bits: u32) -> int {
    (bits as int / 0x80_0000) % 256
}

/// The fraction field.
pub open spec fn fraction_field(bits: u32) -> int {
    bits as int % 0x80_0000
}

/// The pattern stands for no number.
pub open spec fn is_nan(bits: u32) -> bool {
    exponent_field(bits) == 255 && fraction_field(bits) != 0
}

/// The integer that the power of two is applied to.
pub open spec fn significand(bits: u32) -> int {
    if exponent_field(bits) == 0 {
        fraction_field(bits)
    } else {
        fraction_field(bits) + 0x80_0000
    }
}

/// The power of two: a finite pattern stands for
/// `significand * 2 ^ power`, with its sign.
pub open spec fn power(bits: u32) -> int {
    if exponent_field(bits) == 0 {
        -149
    } else {
        exponent_field(bits) - 150
    }
}

/// The value of a pattern in units of the smallest positive number, `2 ^ -149`.
/// By the same rule the two infinities lie beyond all finite numbers.
pub open spec fn scaled(bits: u32) -> int {
    if is_negative(bits) {
        -scaled_size(bits)
    } else {
        scaled_size(bits)
    }
}

/// The size of a pattern's value in units of `2 ^ -149`.
pub open spec fn scaled_size(bits: u32) -> int {
    significand(bits) * pow2((power(bits) + 149) as nat)
}

/// The number of `a` is less than the number of `b`.
pub open spec fn less(a: u32, b: u32) -> bool {
    !is_nan(a) && !is_nan(b) && scaled(a) < scaled(b)
}

/// The integral part of the number's size.
pub open spec fn whole_part(bits: u32) -> int {
    if power(bits) >= 0 {
        significand(bits) * pow2(power(bits) as nat)
    } else {
        significand(bits) / pow2((-power(bits)) as nat) as int
    }
}

/// The number as an `i32`: its fraction is dropped, what lies outside the
/// range becomes the nearer end of it, and what is no number becomes zero.
pub open spec fn as_i32(bits: u32) -> int {
    if is_nan(bits) {
        0
    } else if is_negative(bits) {
        if whole_part(bits) > 0x8000_0000 {
            -0x8000_0000
        } else {
            -whole_part(bits)
        }
    } else if whole_part(bits) > 0x7fff_ffff {
        0x7fff_ffff
    } else {
        whole_part(bits)
    }
}

/// How many low bits of `n` a 24-bit significand cannot hold.
pub open spec fn excess(n: nat) -> nat
    decreases n,
{
    if n < 0x100_0000 {
        0
    } else {
        1 + excess(n / 2)
    }
}

/// `n` in units of `2 ^ excess(n)`, rounded to the nearest integer and, halfway
/// between two, to the even one.
pub open spec fn rounded(n: nat) -> nat {
    let unit = pow2(excess(n));
    let low = n / unit;
    let rest = n % unit;
    if 2 * rest > unit || (2 * rest == unit && low % 2 == 1) {
        low + 1
    } else {
        low
    }
}

/// The pattern of `sig * 2 ^ pow`, for a `sig` of at most `2 ^ 24`.
pub open spec fn pattern_of(sig: nat, pow: int) -> int
    decreases 0x100_0000 - sig,
{
    if sig == 0 {
        0
    } else if sig < 0x80_0000 {
        pattern_of(sig * 2, pow - 1)
    } else {
        (pow + 150) * 0x80_0000 + (sig - 0x80_0000)
    }
}

/// The pattern of the number nearest to `n`.
pub open spec fn nearest(n: nat) -> int {
    pattern_of(rounded(n), excess(n) as int)
}

/// The pattern of the number nearest to the integer `i`.
pub open spec fn nearest_signed(i: int) -> int {
    if i < 0 {
        0x8000_0000 + nearest((-i) as nat)
    } else {
        nearest(i as nat)
    }
}

proof fn pow2_steps(k: nat)
    ensures
        pow2(k + 1) == 2 * pow2(k),
        pow2(k) > 0,
{
    vstd::arithmetic::power2::lemma_pow2_unfold(k + 1);
    vstd::arithmetic::power2::lemma_pow2_pos(k);
}

proof fn pow2_monotonic(a: nat, b: nat)
    requires
        a <= b,
    ensures
        pow2(a) <= pow2(b),
{
    if a < b {
        vstd::arithmetic::power2::lemma_pow2_strictly_increases(a, b);
    }
}

/// `2 ^ k`.
fn power_of_two(k: u32) -> (r: u64)
    requires
        k < 64,
    ensures
        r == pow2(k as nat),
{
    let mut r: u64 = 1;
    proof {
        vstd::arithmetic::power2::lemma2_to64();
        vstd::arithmetic::power2::lemma2_to64_rest();
    }
    let mut i: u32 = 0;
    while i < k
        invariant
            i <= k < 64,
            r == pow2(i as nat),
            pow2(63) == 0x8000_0000_0000_0000,
        decreases k - i,
    {
        proof {
            pow2_steps(i as nat);
            pow2_monotonic((i + 1) as nat, 63);
        }
        r = r * 2;
        i = i + 1;
    }
    r
}

/// The number as an `i32`: its fraction is dropped, what lies outside the
/// range becomes the nearer end of it, and what is no number becomes zero.
pub fn truncate(bits: u32) -> (r: i32)
    ensures
        r == as_i32(bits),
{
    let exponent: u32 = (bits / 0x80_0000) % 256;
    let fraction: u32 = bits % 0x80_0000;
    if exponent == 255 && fraction != 0 {
        return 0;
    }
    let negative = bits >= 0x8000_0000;
    proof {
        vstd::arithmetic::power2::lemma2_to64();
    }
    if exponent < 127 {
        proof {
            let p = (-power(bits)) as nat;
            pow2_monotonic(24, p);
            assert(significand(bits) / pow2(p) as int == 0) by {
                vstd::arithmetic::div_mod::lemma_basic_div(significand(bits), pow2(p) as int);
            }
        }
        return 0;
    }
    let sig: u64 = (fraction + 0x80_0000) as u64;
    if exponent >= 158 {
        proof {
            let p = power(bits) as nat;
            pow2_monotonic(8, p);
            assert(sig * pow2(p) >= 0x80_0000 * 256) by (nonlinear_arith)
                requires
                    sig >= 0x80_0000,
                    pow2(p) >= 256,
            ;
        }
        return if negative {
            i32::MIN
        } else {
            i32::MAX
        };
    }
    let whole: u64 = if exponent >= 150 {
        let p = power_of_two(exponent - 150);
        proof {
            pow2_monotonic((exponent - 150) as nat, 7);
            assert(sig * p < 0x100_0000 * 129) by (nonlinear_arith)
                requires
                    sig < 0x100_0000,
                    p <= 128,
            ;
            assert(sig * p <= 0x7fff_ffff) by (nonlinear_arith)
                requires
                    sig <= 0xff_ffff,
                    p <= 128,
            ;
        }
        sig * p
    } else {
        let p = power_of_two(150 - exponent);
        proof {
            assert(sig / p <= sig) by (nonlinear_arith)
                requires
                    p >= 1,
            ;
        }
        sig / p
    };
    if negative {
        -(whole as i32)
    } else {
        whole as i32
    }
}

/// The pattern of the number nearest to `n`.
pub fn from_unsigned(n: u32) -> (bits: u32)
    ensures
        bits == nearest(n as nat),
        bits < 0x8000_0000,
{
    let mut low: u64 = n as u64;
    let mut unit: u64 = 1;
    let mut exponent: i64 = 0;
    proof {
        vstd::arithmetic::power2::lemma2_to64();
        assert(n as nat / 1nat == n);
    }
    while low >= 0x100_0000
        invariant
            0 <= exponent <= 8,
            unit == pow2(exponent as nat),
            unit >= 1,
            low == n as nat / unit as nat,
            low <= n,
            excess(n as nat) == exponent + excess(low as nat),
            unit * low <= n,
        decreases low,
    {
        proof {
            pow2_steps(exponent as nat);
            vstd::arithmetic::div_mod::lemma_div_denominator(n as int, unit as int, 2);
            assert(unit * 0x100_0000 <= n) by (nonlinear_arith)
                requires
                    unit * low <= n,
                    low >= 0x100_0000,
            ;
            if exponent == 8 {
                vstd::arithmetic::power2::lemma2_to64();
            }
            assert((unit * 2) * (low / 2) <= unit * low) by (nonlinear_arith)
                requires
                    unit >= 1,
            ;
        }
        low = low / 2;
        unit = unit * 2;
        exponent = exponent + 1;
    }
    proof {
        assert(unit <= n || unit == 1 || low == 0) by (nonlinear_arith)
            requires
                unit * low <= n,
        ;
        vstd::arithmetic::div_mod::lemma_fundamental_div_mod(n as int, unit as int);
        vstd::arithmetic::div_mod::lemma_mod_bound(n as int, unit as int);
    }
    let rest: u64 = n as u64 - unit * low;
    let mut sig: u64 = if rest > unit - rest || (rest == unit - rest && low % 2 == 1) {
        low + 1
    } else {
        low
    };
    assert(sig == rounded(n as nat));
    if sig == 0 {
        return 0;
    }
    let ghost start = exponent;
    while sig < 0x80_0000
        invariant
            0 < sig <= 0x100_0000,
            0 <= start <= 8,
            start - 23 <= exponent <= start,
            sig as int >= pow2((start - exponent) as nat),
            pattern_of(sig as nat, exponent as int) == nearest(n as nat),
        decreases 0x100_0000 - sig,
    {
        proof {
            pow2_steps((start - exponent) as nat);
            if start - exponent == 23 {
                vstd::arithmetic::power2::lemma2_to64();
            }
        }
        sig = sig * 2;
        exponent = exponent - 1;
    }
    ((exponent + 150) * 0x80_0000 + (sig as i64 - 0x80_0000)) as u32
}

/// The pattern of the number nearest to `i`.
pub fn from_signed(i: i32) -> (bits: u32)
    ensures
        bits == nearest_signed(i as int),
{
    if i < 0 {
        0x8000_0000 + from_unsigned((-(i as i64)) as u32)
    } else {
        from_unsigned(i as u32)
    }
}

/// The larger of two patterns without their signs has the larger exponent, or
/// the same exponent and the larger fraction.
proof fn fields_grow(a: u32, b: u32)
    requires
        a as int % 0x8000_0000 < b as int % 0x8000_0000,
    ensures
        0 <= exponent_field(a) <= exponent_field(b) < 256,
        0 <= fraction_field(a) < 0x80_0000,
        0 <= fraction_field(b) < 0x80_0000,
        exponent_field(a) == exponent_field(b) ==> fraction_field(a) < fraction_field(b),
{
    let x = a as int % 0x8000_0000;
    let y = b as int % 0x8000_0000;
    assert(exponent_field(a) == x / 0x80_0000);
    assert(exponent_field(b) == y / 0x80_0000);
    assert(fraction_field(a) == x % 0x80_0000);
    assert(fraction_field(b) == y % 0x80_0000);
}

proof fn size_grows(a: u32, b: u32)
    requires
        a as int % 0x8000_0000 < b as int % 0x8000_0000,
    ensures
        scaled_size(a) < scaled_size(b),
{
    let (ea, eb) = (exponent_field(a), exponent_field(b));
    let (sa, sb) = (significand(a), significand(b));
    let (pa, pb) = (pow2((power(a) + 149) as nat) as int, pow2((power(b) + 149) as nat) as int);
    fields_grow(a, b);
    vstd::arithmetic::power2::lemma_pow2_pos((power(a) + 149) as nat);
    vstd::arithmetic::power2::lemma_pow2_pos((power(b) + 149) as nat);
    assert(scaled_size(a) == sa * pa && scaled_size(b) == sb * pb);
    if ea == eb {
        assert(sa * pa < sb * pa) by (nonlinear_arith)
            requires
                sa < sb,
                pa > 0,
        ;
    } else if ea == 0 {
        assert(pa == 1) by {
            vstd::arithmetic::power2::lemma2_to64();
        }
        assert(sb * pb >= sb) by (nonlinear_arith)
            requires
                sb >= 0,
                pb >= 1,
        ;
        assert(sa * pa == sa) by (nonlinear_arith)
            requires
                pa == 1,
        ;
    } else {
        pow2_steps((ea - 1) as nat);
        pow2_monotonic(ea as nat, (eb - 1) as nat);
        assert(sa * pa < sb * pb) by (nonlinear_arith)
            requires
                0 <= sa < 0x100_0000,
                sb >= 0x80_0000,
                pb >= 2 * pa,
                pa > 0,
        ;
    }
}

/// Whether the number of `a` is less than the number of `b`.
pub fn is_less(a: u32, b: u32) -> (r: bool)
    ensures
        r == less(a, b),
{
    let size_a: u32 = a % 0x8000_0000;
    let size_b: u32 = b % 0x8000_0000;
    if size_a > 0x7f80_0000 || size_b > 0x7f80_0000 {
        return false;
    }
    proof {
        let zero: u32 = 0;
        assert(scaled_size(zero) == 0) by {
            assert(significand(zero) == 0);
            assert(0 * pow2((power(zero) + 149) as nat) == 0) by (nonlinear_arith);
        }
        if size_a < size_b {
            size_grows(a, b);
        }
        if size_b < size_a {
            size_grows(b, a);
        }
        if size_a > 0 {
            size_grows(zero, a);
        }
        if size_b > 0 {
            size_grows(zero, b);
        }
    }
    let negative_a = a >= 0x8000_0000;
    let negative_b = b >= 0x8000_0000;
    if negative_a {
        if negative_b {
            size_a > size_b
        } else {
            size_a > 0 || size_b > 0
        }
    } else if negative_b {
        false
    } else {
        size_a < size_b
    }
}

/// The nearest pattern to an integer is off by at most half a unit of its last
/// place.
pub proof fn nearest_is_within_half_a_unit(n: nat)
    ensures
        2 * (rounded(n) * pow2(excess(n)) - n) <= pow2(excess(n)),
        2 * (n - rounded(n) * pow2(excess(n))) <= pow2(excess(n)),
{
    let unit = pow2(excess(n));
    vstd::arithmetic::power2::lemma_pow2_pos(excess(n));
    vstd::arithmetic::div_mod::lemma_fundamental_div_mod(n as int, unit as int);
    vstd::arithmetic::div_mod::lemma_mod_bound(n as int, unit as int);
    let low = (n / unit) as int;
    assert((low + 1) * unit == low * unit + unit) by (nonlinear_arith);
    assert(low * unit == unit * low) by (nonlinear_arith);
}

proof fn pattern_keeps_whole(sig: nat, shift: nat, n: nat)
    requires
        0 < sig < 0x100_0000,
        sig == n * pow2(shift),
        n > 0,
        shift <= 23,
    ensures
        0 < pattern_of(sig, -(shift as int)) < 0x8000_0000,
        whole_part(pattern_of(sig, -(shift as int)) as u32) == n,
        exponent_field(pattern_of(sig, -(shift as int)) as u32) < 255,
    decreases 0x100_0000 - sig,
{
    vstd::arithmetic::power2::lemma_pow2_pos(shift);
    if sig < 0x80_0000 {
        pow2_steps(shift);
        assert(sig * 2 == n * pow2(shift + 1)) by (nonlinear_arith)
            requires
                sig == n * pow2(shift),
                pow2(shift + 1) == 2 * pow2(shift),
        ;
        if shift == 23 {
            vstd::arithmetic::power2::lemma2_to64();
            assert(n * pow2(shift) >= pow2(shift)) by (nonlinear_arith)
                requires
                    n >= 1,
            ;
        }
        pattern_keeps_whole(sig * 2, shift + 1, n);
    } else {
        let bits = pattern_of(sig, -(shift as int)) as u32;
        assert(bits as int == (150 - shift) * 0x80_0000 + (sig - 0x80_0000));
        assert(exponent_field(bits) == 150 - shift);
        assert(significand(bits) == sig);
        if shift == 0 {
            vstd::arithmetic::power2::lemma2_to64();
        } else {
            vstd::arithmetic::div_mod::lemma_div_multiples_vanish(n as int, pow2(shift) as int);
            assert(n * pow2(shift) == pow2(shift) * n) by (nonlinear_arith);
        }
    }
}

/// An integer that fits 24 bits is held exactly: cutting its pattern down to an
/// integer gives it back.
pub proof fn small_integers_are_exact(i: int)
    requires
        -0x100_0000 < i < 0x100_0000,
    ensures
        0 <= nearest_signed(i) < 0x1_0000_0000,
        as_i32(nearest_signed(i) as u32) == i,
{
    let n = (if i < 0 {
        -i
    } else {
        i
    }) as nat;
    vstd::arithmetic::power2::lemma2_to64();
    assert(excess(n) == 0);
    assert(rounded(n) == n) by {
        assert(n / 1 == n);
        assert(n % 1 == 0);
    }
    if n > 0 {
        pattern_keeps_whole(n, 0, n);
        if i < 0 {
            let bits = nearest(n) as u32;
            let signed = nearest_signed(i) as u32;
            assert(exponent_field(signed) == exponent_field(bits));
            assert(fraction_field(signed) == fraction_field(bits));
        }
    } else {
        assert(whole_part(0) == 0) by {
            vstd::arithmetic::power2::lemma_pow2_pos(149);
            vstd::arithmetic::div_mod::lemma_basic_div(0, pow2(149) as int);
        }
    }
}

/// Decimal texts of real numbers, keyed by bit pattern.
///
/// The caller renders the patterns that occur in a document and enters them
/// here before the document's values are read as text.
pub struct FloatTexts {
    entries: Vec<(u32, String)>,
}

spec fn entries_map(entries: Seq<(u32, String)>) -> Map<u32, Seq<char>>
    decreases entries.len(),
{
    if entries.len() == 0 {
        Map::empty()
    } else {
        entries_map(entries.drop_last()).insert(entries.last().0, entries.last().1@)
    }
}

impl View for FloatTexts {
    type V = Map<u32, Seq<char>>;

    closed spec fn view(&self) -> Map<u32, Seq<char>> {
        entries_map(self.entries@)
    }
}

/// The text that `texts` holds for a pattern; none where it holds no entry.
pub open spec fn text_of(texts: Map<u32, Seq<char>>, bits: u32) -> Seq<char> {
    if texts.dom().contains(bits) {
        texts[bits]
    } else {
        Seq::empty()
    }
}

impl FloatTexts {
    /// No texts at all.
    pub fn new() -> (r: FloatTexts)
        ensures
            r@ == Map::<u32, Seq<char>>::empty(),
    {
        FloatTexts { entries: Vec::new() }
    }

    /// Enters the text of a pattern, in place of any earlier one.
    pub fn insert(&mut self, bits: u32, text: String)
        ensures
            final(self)@ == old(self)@.insert(bits, text@),
    {
        self.entries.push((bits, text));
        assert(self.entries@.drop_last() == old(self).entries@);
    }

    /// The text of a pattern; empty where none was entered.
    pub fn text(&self, bits: u32) -> (r: String)
        ensures
            r@ == text_of(self@, bits),
    {
        let mut i = self.entries.len();
        assert(self.entries@.take(i as int) == self.entries@);
        while i > 0
            invariant
                i <= self.entries@.len(),
                text_of(self@, bits) == text_of(entries_map(self.entries@.take(i as int)), bits),
            decreases i,
        {
            let ghost upto = self.entries@.take(i as int);
            assert(upto.drop_last() == self.entries@.take(i - 1));
            i = i - 1;
            if self.entries[i].0 == bits {
                return self.entries[i].1.clone();
            }
        }
        String::new()
    }
}

/// The real numbers that decimal texts denote.
///
/// The caller reads the texts that occur and enters those that are numbers.
pub struct FloatNumbers {
    entries: StringHashMap<u32>,
}

impl View for FloatNumbers {
    type V = Map<Seq<char>, u32>;

    closed spec fn view(&self) -> Map<Seq<char>, u32> {
        self.entries@
    }
}

/// The number that a text denotes; none where none was entered for it.
pub open spec fn number_of(numbers: Map<Seq<char>, u32>, text: Seq<char>) -> Option<u32> {
    if numbers.contains_key(text) {
        Some(numbers[text])
    } else {
        None
    }
}

impl FloatNumbers {
    /// No numbers at all.
    pub fn new() -> (r: FloatNumbers)
        ensures
            r@ == Map::<Seq<char>, u32>::empty(),
    {
        FloatNumbers { entries: StringHashMap::new() }
    }

    /// Enters the number that a text denotes.
    pub fn insert(&mut self, text: String, bits: u32)
        ensures
            final(self)@ == old(self)@.insert(text@, bits),
    {
        self.entries.insert(text, bits);
    }

    /// The number that a text denotes.
    pub fn number(&self, text: &str) -> (r: Option<u32>)
        ensures
            r == number_of(self@, text@),
    {
        match self.entries.get(text) {
            Some(bits) => Some(*bits),
            None => None,
        }
    }
}

/// A real number that a document gives either as a pattern or as decimal text.
#[derive(Debug, PartialEq, Eq)]
pub enum FloatValue {
    /// The number itself.
    Bits(u32),
    /// Decimal text without white space at its ends, and the number to take
    /// where the text denotes none.
    Text { text: String, fallback: u32 },
}

/// What a [`FloatValue`] says.
pub enum FloatModel {
    Bits(u32),
    Text { text: Seq<char>, fallback: u32 },
}

impl View for FloatValue {
    type V = FloatModel;

    open spec fn view(&self) -> FloatModel {
        match *self {
            FloatValue::Bits(bits) => FloatModel::Bits(bits),
            FloatValue::Text { text, fallback } => FloatModel::Text { text: text@, fallback },
        }
    }
}

impl Clone for FloatValue {
    fn clone(&self) -> (r: Self)
        ensures
            r@ == self@,
    {
        match self {
            FloatValue::Bits(bits) => FloatValue::Bits(*bits),
            FloatValue::Text { text, fallback } => FloatValue::Text {
                text: text.clone(),
                fallback: *fallback,
            },
        }
    }
}

/// The number that a value stands for, where `numbers` are those that texts
/// denote.
pub open spec fn resolved(value: FloatModel, numbers: Map<Seq<char>, u32>) -> u32 {
    match value {
        FloatModel::Bits(bits) => bits,
        FloatModel::Text { text, fallback } => match number_of(numbers, text) {
            Some(bits) => bits,
            None => fallback,
        },
    }
}

impl FloatValue {
    /// The number, where `numbers` are those that texts denote.
    pub fn number(&self, numbers: &FloatNumbers) -> (bits: u32)
        ensures
            bits == resolved(self@, numbers@),
    {
        match self {
            FloatValue::Bits(bits) => *bits,
            FloatValue::Text { text, .. } => self.resolve(numbers.number(text.as_str())),
        }
    }

    /// The number, given what reading the text as a number came to.
    pub fn resolve(&self, parsed: Option<u32>) -> (bits: u32)
        ensures
            bits == match self@ {
                FloatModel::Bits(bits) => bits,
                FloatModel::Text { text, fallback } => match parsed {
                    Some(bits) => bits,
                    None => fallback,
                },
            },
    {
        match self {
            FloatValue::Bits(bits) => *bits,
            FloatValue::Text { fallback, .. } => match parsed {
                Some(bits) => bits,
                None => *fallback,
            },
        }
    }
}

/// The whole part of a number's size is the size without its fraction.
proof fn whole_part_bounds(bits: u32)
    ensures
        whole_part(bits) >= 0,
        whole_part(bits) * pow2(149) <= scaled_size(bits) < (whole_part(bits) + 1) * pow2(149),
{
    let sig = significand(bits);
    let whole = whole_part(bits);
    vstd::arithmetic::power2::lemma_pow2_pos(149);
    if power(bits) >= 0 {
        let p = power(bits) as nat;
        vstd::arithmetic::power2::lemma_pow2_pos(p);
        vstd::arithmetic::power2::lemma_pow2_adds(p, 149);
        assert(sig * (pow2(p) * pow2(149)) == (sig * pow2(p)) * pow2(149)) by (nonlinear_arith);
        assert(whole >= 0) by (nonlinear_arith)
            requires
                whole == sig * pow2(p),
                sig >= 0,
        ;
        assert((whole + 1) * pow2(149) == whole * pow2(149) + pow2(149)) by (nonlinear_arith);
    } else {
        let p = (-power(bits)) as nat;
        let q = (149 - p) as nat;
        vstd::arithmetic::power2::lemma_pow2_pos(p);
        vstd::arithmetic::power2::lemma_pow2_pos(q);
        vstd::arithmetic::power2::lemma_pow2_adds(p, q);
        let (a, b) = (pow2(p) as int, pow2(q) as int);
        vstd::arithmetic::div_mod::lemma_fundamental_div_mod(sig, a);
        vstd::arithmetic::div_mod::lemma_mod_bound(sig, a);
        vstd::arithmetic::div_mod::lemma_div_pos_is_pos(sig, a);
        assert(whole * (a * b) <= sig * b) by (nonlinear_arith)
            requires
                a * whole <= sig,
                b > 0,
        ;
        assert(sig * b < (whole + 1) * (a * b)) by (nonlinear_arith)
            requires
                sig < a * whole + a,
                b > 0,
        ;
    }
}

/// Cutting a number down to an integer never leaves the range of an `i32`, and
/// makes zero of what is no number.
pub proof fn cut_numbers_fit(bits: u32)
    ensures
        i32::MIN <= as_i32(bits) <= i32::MAX,
        is_nan(bits) ==> as_i32(bits) == 0,
{
    whole_part_bounds(bits);
}

/// Cutting a number down to an integer drops its fraction, towards zero; a number that
/// is out of range becomes the nearer end of it.
pub proof fn cutting_drops_the_fraction(bits: u32)
    requires
        !is_nan(bits),
    ensures
        ({
            let unit = pow2(149) as int;
            let cut = as_i32(bits);
            &&& 0 <= scaled(bits) < 0x8000_0000 * unit ==> cut * unit <= scaled(bits) < (cut + 1)
                * unit
            &&& -0x8000_0000 * unit < scaled(bits) <= 0 ==> (cut - 1) * unit < scaled(bits) <= cut
                * unit
            &&& scaled(bits) >= 0x8000_0000 * unit ==> cut == 0x7fff_ffff
            &&& scaled(bits) <= -0x8000_0000 * unit ==> cut == -0x8000_0000
        }),
{
    let unit = pow2(149) as int;
    let whole = whole_part(bits);
    let size = scaled_size(bits);
    whole_part_bounds(bits);
    vstd::arithmetic::power2::lemma_pow2_pos(149);
    assert(size >= 0) by (nonlinear_arith)
        requires
            whole * unit <= size,
            whole >= 0,
            unit > 0,
    ;
    assert(size < 0x8000_0000 * unit ==> whole < 0x8000_0000) by (nonlinear_arith)
        requires
            whole * unit <= size,
            unit > 0,
    ;
    assert(size >= 0x8000_0000 * unit ==> whole >= 0x8000_0000) by (nonlinear_arith)
        requires
            size < (whole + 1) * unit,
            unit > 0,
    ;
    assert((-whole - 1) * unit == -((whole + 1) * unit)) by (nonlinear_arith);
    assert(-whole * unit == -(whole * unit)) by (nonlinear_arith);
    assert(-0x8000_0000 * unit == -(0x8000_0000 * unit)) by (nonlinear_arith);
    assert(0 * unit == 0 && (0 - 1) * unit == -unit && (0 + 1) * unit == unit) by (nonlinear_arith);
    if size == 0 {
        assert(whole == 0) by (nonlinear_arith)
            requires
                whole * unit <= 0,
                whole >= 0,
                unit > 0,
        ;
    }
}

proof fn pattern_keeps_size(sig: nat, shift: nat, n: nat)
    requires
        0 < sig < 0x100_0000,
        sig == n * pow2(shift),
        n > 0,
        shift <= 23,
    ensures
        0 < pattern_of(sig, -(shift as int)) < 0x8000_0000,
        scaled_size(pattern_of(sig, -(shift as int)) as u32) == n * pow2(149),
        exponent_field(pattern_of(sig, -(shift as int)) as u32) < 255,
    decreases 0x100_0000 - sig,
{
    vstd::arithmetic::power2::lemma_pow2_pos(shift);
    if sig < 0x80_0000 {
        pow2_steps(shift);
        assert(sig * 2 == n * pow2(shift + 1)) by (nonlinear_arith)
            requires
                sig == n * pow2(shift),
                pow2(shift + 1) == 2 * pow2(shift),
        ;
        if shift == 23 {
            vstd::arithmetic::power2::lemma2_to64();
            assert(n * pow2(shift) >= pow2(shift)) by (nonlinear_arith)
                requires
                    n >= 1,
            ;
        }
        pattern_keeps_size(sig * 2, shift + 1, n);
    } else {
        let bits = pattern_of(sig, -(shift as int)) as u32;
        let rest = (149 - shift) as nat;
        assert(bits as int == (150 - shift) * 0x80_0000 + (sig - 0x80_0000));
        assert(exponent_field(bits) == 150 - shift);
        assert(significand(bits) == sig);
        vstd::arithmetic::power2::lemma_pow2_adds(shift, rest);
        assert((n * pow2(shift)) * pow2(rest) == n * (pow2(shift) * pow2(rest))) by (nonlinear_arith);
    }
}

proof fn integers_keep_their_size(i: int)
    requires
        -0x100_0000 < i < 0x100_0000,
    ensures
        0 <= nearest_signed(i) < 0x1_0000_0000,
        !is_nan(nearest_signed(i) as u32),
        scaled(nearest_signed(i) as u32) == i * pow2(149),
{
    let n = (if i < 0 {
        -i
    } else {
        i
    }) as nat;
    vstd::arithmetic::power2::lemma2_to64();
    assert(excess(n) == 0);
    assert(rounded(n) == n) by {
        assert(n / 1 == n);
        assert(n % 1 == 0);
    }
    assert((-n) * pow2(149) == -(n * pow2(149))) by (nonlinear_arith);
    if n > 0 {
        pattern_keeps_size(n, 0, n);
        if i < 0 {
            let bits = nearest(n) as u32;
            let signed = nearest_signed(i) as u32;
            assert(exponent_field(signed) == exponent_field(bits));
            assert(fraction_field(signed) == fraction_field(bits));
        }
    } else {
        assert(significand(0) == 0);
        assert(0 * pow2((power(0) + 149) as nat) == 0) by (nonlinear_arith);
        assert(0 * pow2(149) == 0) by (nonlinear_arith);
    }
}

/// Real numbers are ordered as the integers are, as far as those are held exactly.
pub proof fn real_numbers_are_ordered(i: int, j: int)
    requires
        -0x100_0000 < i < 0x100_0000,
        -0x100_0000 < j < 0x100_0000,
    ensures
        less(nearest_signed(i) as u32, nearest_signed(j) as u32) <==> i < j,
{
    integers_keep_their_size(i);
    integers_keep_their_size(j);
    vstd::arithmetic::power2::lemma_pow2_pos(149);
    let unit = pow2(149) as int;
    assert(i * unit < j * unit <==> i < j) by (nonlinear_arith)
        requires
            unit > 0,
    ;
}

/// No number is less than itself, of two numbers only one can be less, and what is less
/// than a lesser number is less; what is no number is not compared.
pub proof fn less_is_an_order(a: u32, b: u32, c: u32)
    ensures
        !less(a, a),
        less(a, b) ==> !less(b, a),
        less(a, b) && less(b, c) ==> less(a, c),
        is_nan(a) ==> !less(a, b) && !less(b, a),
        !is_nan(a) && !is_nan(b) ==> less(a, b) || less(b, a) || scaled(a) == scaled(b),
{
}

/// A number that a document gives as a pattern is that pattern; one that it gives as
/// text is what the text denotes, else the fallback.
pub proof fn values_are_resolved(bits: u32, text: Seq<char>, numbers: Map<Seq<char>, u32>)
    ensures
        resolved(FloatModel::Bits(bits), numbers) == bits,
        numbers.contains_key(text) ==> resolved(
            FloatModel::Text { text, fallback: bits },
            numbers,
        ) == numbers[text],
        !numbers.contains_key(text) ==> resolved(
            FloatModel::Text { text, fallback: bits },
            numbers,
        ) == bits,
{
}

proof fn excess_bounds(n: nat)
    requires
        0x100_0000 <= n < 0x1_0000_0000,
    ensures
        1 <= excess(n) <= 8,
        0x80_0000 <= n / pow2(excess(n)) < 0x100_0000,
    decreases n,
{
    let half = n / 2;
    let e = excess(half);
    pow2_steps(e);
    vstd::arithmetic::power2::lemma2_to64();
    reveal_with_fuel(excess, 10);
    if half < 0x100_0000 {
        assert(pow2(excess(n)) == 2);
    } else {
        excess_bounds(half);
        vstd::arithmetic::div_mod::lemma_div_denominator(n as int, 2, pow2(e) as int);
        assert(n / pow2(excess(n)) == half / pow2(e));
    }
}

proof fn large_patterns_keep_size(sig: nat, pow: nat)
    requires
        0x80_0000 <= sig <= 0x100_0000,
        pow <= 60,
    ensures
        0 < pattern_of(sig, pow as int) < 0x7f80_0000,
        scaled(pattern_of(sig, pow as int) as u32) == sig * (pow2(pow) * pow2(149)),
        !is_nan(pattern_of(sig, pow as int) as u32),
{
    let bits = pattern_of(sig, pow as int);
    assert(bits == (pow + 150) * 0x80_0000 + (sig - 0x80_0000));
    let b = bits as u32;
    vstd::arithmetic::power2::lemma_pow2_adds(pow, 149);
    pow2_steps(pow + 149);
    if sig < 0x100_0000 {
        assert(exponent_field(b) == pow + 150);
        assert(fraction_field(b) == sig - 0x80_0000);
    } else {
        assert(exponent_field(b) == pow + 151);
        assert(fraction_field(b) == 0);
        let unit = pow2(pow + 149);
        assert(0x80_0000 * (2 * unit) == 0x100_0000 * unit) by (nonlinear_arith);
    }
}

/// An integer becomes the real number nearest to it: within half a unit of the last place
/// that a real number of its size has, and of two that are equally near the even one.
pub proof fn integers_become_the_nearest_number(n: nat)
    requires
        0x100_0000 <= n < 0x1_0000_0000,
    ensures
        ({
            let unit = pow2(excess(n));
            let sig = rounded(n);
            &&& scaled(nearest(n) as u32) == sig * (unit * pow2(149))
            &&& 0x80_0000 <= sig <= 0x100_0000
            &&& 2 * (sig * unit - n) <= unit
            &&& 2 * (n - sig * unit) <= unit
            &&& 2 * (sig * unit - n) == unit || 2 * (n - sig * unit) == unit ==> sig % 2 == 0
        }),
{
    excess_bounds(n);
    let unit = pow2(excess(n));
    let low = n / unit;
    let rest = n % unit;
    vstd::arithmetic::power2::lemma_pow2_pos(excess(n));
    vstd::arithmetic::div_mod::lemma_fundamental_div_mod(n as int, unit as int);
    assert(n == low * unit + rest) by (nonlinear_arith)
        requires
            n == unit * low + rest,
    ;
    assert((low + 1) * unit == low * unit + unit) by (nonlinear_arith);
    let sig = rounded(n);
    assert(sig == low || sig == low + 1);
    large_patterns_keep_size(sig, excess(n));
}

} // verus!
