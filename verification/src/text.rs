//! Text primitives: conversion between strings and character vectors,
//! whitespace trimming, and decimal and hexadecimal numerals.

use vstd::prelude::*;

verus! {

/// `String::push` appends one character at the end of the string.
pub assume_specification[ String::push ](s: &mut String, ch: char)
    ensures
        final(s)@ == old(s)@.push(ch),
;

/// The characters of `s`, in order.
pub fn to_chars(s: &str) -> (out: Vec<char>)
    ensures
        out@ == s@,
{
    let mut out: Vec<char> = Vec::new();
    for c in it: s.chars()
        invariant
            it.seq() == s@,
            out@ == s@.take(it.index() as int),
    {
        out.push(c);
    }
    assert(s@.take(s@.len() as int) =~= s@);
    out
}

/// The string made of `chars`.
pub fn from_chars(chars: &[char]) -> (out: String)
    ensures
        out@ == chars@,
{
    let mut out = String::new();
    let mut i: usize = 0;
    while i < chars.len()
        invariant
            i <= chars@.len(),
            out@ == chars@.take(i as int),
        decreases chars.len() - i,
    {
        out.push(chars[i]);
        assert(chars@.take(i + 1) =~= chars@.take(i as int).push(chars@[i as int]));
        i = i + 1;
    }
    assert(chars@.take(chars@.len() as int) =~= chars@);
    out
}

/// The white space that `trim` removes: the characters with the Unicode
/// property `White_Space`.
pub open spec fn is_space(c: char) -> bool {
    let u = c as u32;
    ||| 0x09 <= u <= 0x0d
    ||| u == 0x20
    ||| u == 0x85
    ||| u == 0xa0
    ||| u == 0x1680
    ||| 0x2000 <= u <= 0x200a
    ||| u == 0x2028
    ||| u == 0x2029
    ||| u == 0x202f
    ||| u == 0x205f
    ||| u == 0x3000
}

/// `s` without its leading white space.
pub open spec fn trim_start(s: Seq<char>) -> Seq<char>
    decreases s.len(),
{
    if s.len() > 0 && is_space(s[0]) {
        trim_start(s.subrange(1, s.len() as int))
    } else {
        s
    }
}

/// `s` without its trailing white space.
pub open spec fn trim_end(s: Seq<char>) -> Seq<char>
    decreases s.len(),
{
    if s.len() > 0 && is_space(s.last()) {
        trim_end(s.drop_last())
    } else {
        s
    }
}

/// `s` without leading and trailing white space.
pub open spec fn trimmed(s: Seq<char>) -> Seq<char> {
    trim_end(trim_start(s))
}

fn is_space_char(c: char) -> (r: bool)
    ensures
        r == is_space(c),
{
    let u: u32 = c as u32;
    (0x09 <= u && u <= 0x0d) || u == 0x20 || u == 0x85 || u == 0xa0 || u == 0x1680 || (0x2000 <= u
        && u <= 0x200a) || u == 0x2028 || u == 0x2029 || u == 0x202f || u == 0x205f || u == 0x3000
}

/// `s` without leading and trailing white space.
pub fn trim<'a>(s: &'a [char]) -> (r: &'a [char])
    ensures
        r@ == trimmed(s@),
{
    let n: usize = s.len();
    let mut lo: usize = 0;
    assert(s@.subrange(0, n as int) =~= s@);
    while lo < n && is_space_char(s[lo])
        invariant
            lo <= n,
            n == s@.len(),
            trim_start(s@.subrange(lo as int, n as int)) == trim_start(s@),
        decreases n - lo,
    {
        assert(s@.subrange(lo as int, n as int).subrange(1, n - lo) =~= s@.subrange(
            lo + 1,
            n as int,
        ));
        lo = lo + 1;
    }
    let ghost head = s@.subrange(lo as int, n as int);
    assert(trim_start(s@) == head);
    let mut hi: usize = n;
    while hi > lo && is_space_char(s[hi - 1])
        invariant
            lo <= hi <= n,
            n == s@.len(),
            head == s@.subrange(lo as int, n as int),
            trim_end(s@.subrange(lo as int, hi as int)) == trim_end(head),
        decreases hi,
    {
        assert(s@.subrange(lo as int, hi as int).drop_last() =~= s@.subrange(lo as int, hi - 1));
        hi = hi - 1;
    }
    vstd::slice::slice_subrange(s, lo, hi)
}

/// The position of the first `c` in `s`, or the length of `s` where there is
/// none.
pub open spec fn find(s: Seq<char>, c: char) -> int
    decreases s.len(),
{
    if s.len() == 0 || s[0] == c {
        0
    } else {
        1 + find(s.subrange(1, s.len() as int), c)
    }
}

/// `find` is the only position that has no `c` before it and is the end of the
/// sequence or holds `c`.
pub proof fn lemma_find(s: Seq<char>, c: char, r: int)
    requires
        0 <= r <= s.len(),
        forall|j: int| 0 <= j < r ==> s[j] != c,
        r < s.len() ==> s[r] == c,
    ensures
        find(s, c) == r,
    decreases s.len(),
{
    if s.len() > 0 && r > 0 {
        let t = s.subrange(1, s.len() as int);
        assert forall|j: int| 0 <= j < r - 1 implies t[j] != c by {
            assert(t[j] == s[j + 1]);
        }
        lemma_find(t, c, r - 1);
    }
}

/// The position of the first `c` in `s`, or the length of `s`.
pub fn find_char(s: &[char], c: char) -> (r: usize)
    ensures
        r == find(s@, c),
        r <= s@.len(),
        forall|j: int| 0 <= j < r ==> s@[j] != c,
        r < s@.len() ==> s@[r as int] == c,
{
    let mut i: usize = 0;
    while i < s.len() && s[i] != c
        invariant
            i <= s@.len(),
            forall|j: int| 0 <= j < i ==> s@[j] != c,
        decreases s.len() - i,
    {
        i = i + 1;
    }
    proof {
        lemma_find(s@, c, i as int);
    }
    i
}

/// Whether `s` begins with `p`.
pub open spec fn has_prefix<T>(s: Seq<T>, p: Seq<T>) -> bool {
    p.len() <= s.len() && s.subrange(0, p.len() as int) == p
}

/// Whether `s` ends with `p`.
pub open spec fn has_suffix<T>(s: Seq<T>, p: Seq<T>) -> bool {
    p.len() <= s.len() && s.subrange(s.len() - p.len(), s.len() as int) == p
}

/// Whether `a` and `b` hold the same characters.
pub fn same_chars(a: &[char], b: &[char]) -> (r: bool)
    ensures
        r == (a@ == b@),
{
    if a.len() != b.len() {
        return false;
    }
    let mut i: usize = 0;
    while i < a.len()
        invariant
            i <= a@.len(),
            a@.len() == b@.len(),
            forall|j: int| 0 <= j < i ==> a@[j] == b@[j],
        decreases a.len() - i,
    {
        if a[i] != b[i] {
            return false;
        }
        i = i + 1;
    }
    assert(a@ =~= b@);
    true
}

/// Whether `a` and `b` are the same text.
pub fn same_text(a: &str, b: &str) -> (r: bool)
    ensures
        r == (a@ == b@),
{
    let x = to_chars(a);
    let y = to_chars(b);
    same_chars(x.as_slice(), y.as_slice())
}

/// Whether `s` begins with the text `p`.
pub fn starts_with(s: &[char], p: &str) -> (r: bool)
    ensures
        r == has_prefix(s@, p@),
{
    let q = to_chars(p);
    if q.len() > s.len() {
        return false;
    }
    same_chars(vstd::slice::slice_subrange(s, 0, q.len()), q.as_slice())
}

/// Whether `s` ends with the text `p`.
pub fn ends_with(s: &[char], p: &str) -> (r: bool)
    ensures
        r == has_suffix(s@, p@),
{
    let q = to_chars(p);
    if q.len() > s.len() {
        return false;
    }
    same_chars(vstd::slice::slice_subrange(s, s.len() - q.len(), s.len()), q.as_slice())
}

pub open spec fn is_digit(c: char) -> bool {
    48 <= c as u32 <= 57
}

/// The number that `s`, a sequence of decimal digits, denotes.
pub open spec fn decimal_value(s: Seq<char>) -> nat
    decreases s.len(),
{
    if s.len() == 0 {
        0
    } else {
        decimal_value(s.drop_last()) * 10 + (s.last() as u32 - 48) as nat
    }
}

/// The number in 0..=`max` that `s` denotes as a nonempty sequence of digits.
pub open spec fn digits(s: Seq<char>, max: nat) -> Option<nat> {
    if s.len() > 0 && (forall|i: int| 0 <= i < s.len() ==> is_digit(#[trigger] s[i]))
        && decimal_value(s) <= max {
        Some(decimal_value(s))
    } else {
        None
    }
}

/// What parsing `s` as an unsigned integer of at most `max` gives: digits with
/// an optional `+` before them.
pub open spec fn unsigned(s: Seq<char>, max: nat) -> Option<nat> {
    if s.len() > 0 && s[0] == '+' {
        digits(s.subrange(1, s.len() as int), max)
    } else {
        digits(s, max)
    }
}

/// What parsing `s` as a 32-bit signed integer gives: digits with an optional
/// sign before them.
pub open spec fn signed32(s: Seq<char>) -> Option<int> {
    if s.len() > 0 && s[0] == '-' {
        match digits(s.subrange(1, s.len() as int), 0x8000_0000) {
            Some(n) => Some(-(n as int)),
            None => None,
        }
    } else {
        match unsigned(s, 0x7fff_ffff) {
            Some(n) => Some(n as int),
            None => None,
        }
    }
}

proof fn lemma_decimal_prefix(s: Seq<char>, i: int)
    requires
        0 <= i <= s.len(),
        forall|j: int| 0 <= j < s.len() ==> is_digit(#[trigger] s[j]),
    ensures
        decimal_value(s.take(i)) <= decimal_value(s),
    decreases s.len() - i,
{
    if i < s.len() {
        lemma_decimal_prefix(s, i + 1);
        assert(s.take(i + 1).drop_last() =~= s.take(i));
        assert(is_digit(s[i]));
    } else {
        assert(s.take(i) =~= s);
    }
}

fn is_digit_char(c: char) -> (r: bool)
    ensures
        r == is_digit(c),
{
    let u: u32 = c as u32;
    48 <= u && u <= 57
}

fn parse_digits(s: &[char], max: u64) -> (r: Option<u64>)
    ensures
        match r {
            Some(n) => digits(s@, max as nat) == Some(n as nat),
            None => digits(s@, max as nat) is None,
        },
{
    if s.len() == 0 {
        return None;
    }
    let mut bad: usize = 0;
    while bad < s.len() && is_digit_char(s[bad])
        invariant
            bad <= s@.len(),
            forall|j: int| 0 <= j < bad ==> is_digit(#[trigger] s@[j]),
        decreases s.len() - bad,
    {
        bad = bad + 1;
    }
    if bad < s.len() {
        return None;
    }
    let mut acc: u64 = 0;
    let mut i: usize = 0;
    while i < s.len()
        invariant
            i <= s@.len(),
            acc <= max,
            acc == decimal_value(s@.take(i as int)),
            forall|j: int| 0 <= j < s@.len() ==> is_digit(#[trigger] s@[j]),
        decreases s.len() - i,
    {
        assert(is_digit(s@[i as int]));
        let d: u32 = s[i] as u32 - 48;
        let next: u128 = acc as u128 * 10 + d as u128;
        proof {
            assert(s@.take(i + 1).drop_last() =~= s@.take(i as int));
            lemma_decimal_prefix(s@, i + 1);
        }
        if next > max as u128 {
            return None;
        }
        acc = next as u64;
        i = i + 1;
    }
    assert(s@.take(i as int) =~= s@);
    Some(acc)
}

/// The unsigned integer of at most `max` that `s` denotes.
pub fn parse_unsigned(s: &[char], max: u64) -> (r: Option<u64>)
    ensures
        match r {
            Some(n) => n <= max && unsigned(s@, max as nat) == Some(n as nat),
            None => unsigned(s@, max as nat) is None,
        },
{
    if s.len() > 0 && s[0] == '+' {
        parse_digits(vstd::slice::slice_subrange(s, 1, s.len()), max)
    } else {
        parse_digits(s, max)
    }
}

/// The 32-bit signed integer that `s` denotes.
pub fn parse_i32(s: &[char]) -> (r: Option<i32>)
    ensures
        match r {
            Some(n) => signed32(s@) == Some(n as int),
            None => signed32(s@) is None,
        },
{
    if s.len() > 0 && s[0] == '-' {
        match parse_digits(vstd::slice::slice_subrange(s, 1, s.len()), 0x8000_0000) {
            Some(n) => Some((-(n as i64)) as i32),
            None => None,
        }
    } else {
        match parse_unsigned(s, 0x7fff_ffff) {
            Some(n) => Some(n as i32),
            None => None,
        }
    }
}

/// The character that stands for `d` in lower-case hexadecimal.
pub open spec fn hex_digit(d: nat) -> char {
    if d < 10 {
        (48 + d) as char
    } else {
        (87 + d) as char
    }
}

/// The lower-case hexadecimal numeral of `n`, without leading zeros.
pub open spec fn hex(n: nat) -> Seq<char>
    decreases n,
{
    if n < 16 {
        seq![hex_digit(n)]
    } else {
        hex(n / 16).push(hex_digit(n % 16))
    }
}

/// The decimal numeral of `n`, without leading zeros.
pub open spec fn dec(n: nat) -> Seq<char>
    decreases n,
{
    if n < 10 {
        seq![hex_digit(n)]
    } else {
        dec(n / 10).push(hex_digit(n % 10))
    }
}

fn hex_digit_char(d: u64) -> (c: char)
    requires
        d < 16,
    ensures
        c == hex_digit(d as nat),
{
    match d {
        0 => '0',
        1 => '1',
        2 => '2',
        3 => '3',
        4 => '4',
        5 => '5',
        6 => '6',
        7 => '7',
        8 => '8',
        9 => '9',
        10 => 'a',
        11 => 'b',
        12 => 'c',
        13 => 'd',
        14 => 'e',
        _ => 'f',
    }
}

/// Appends the hexadecimal numeral of `n` to `out`.
pub fn push_hex(out: &mut String, n: u64)
    ensures
        final(out)@ == old(out)@ + hex(n as nat),
    decreases n,
{
    if n >= 16 {
        push_hex(out, n / 16);
    }
    out.push(hex_digit_char(n % 16));
    assert(out@ =~= old(out)@ + hex(n as nat));
}

/// Appends the decimal numeral of `n` to `out`.
pub fn push_dec(out: &mut String, n: u64)
    ensures
        final(out)@ == old(out)@ + dec(n as nat),
    decreases n,
{
    if n >= 10 {
        push_dec(out, n / 10);
    }
    out.push(hex_digit_char(n % 10));
    assert(out@ =~= old(out)@ + dec(n as nat));
}

proof fn hex_digit_injective(a: nat, b: nat)
    requires
        a < 16,
        b < 16,
        hex_digit(a) == hex_digit(b),
    ensures
        a == b,
{
    assert(hex_digit(a) as u32 == if a < 10 { 48 + a } else { 87 + a });
    assert(hex_digit(b) as u32 == if b < 10 { 48 + b } else { 87 + b });
}

/// Two numbers with the same hexadecimal numeral are equal.
pub proof fn hex_injective(a: nat, b: nat)
    requires
        hex(a) == hex(b),
    ensures
        a == b,
    decreases a,
{
    if a < 16 {
        if b >= 16 {
            hex_nonempty(b / 16);
            assert(hex(b).len() == hex(b / 16).len() + 1);
        } else {
            assert(hex(a)[0] == hex_digit(a));
            assert(hex(b)[0] == hex_digit(b));
            hex_digit_injective(a, b);
        }
    } else if b < 16 {
        hex_nonempty(a / 16);
        assert(hex(a).len() == hex(a / 16).len() + 1);
    } else {
        assert(hex(a).drop_last() =~= hex(a / 16));
        assert(hex(b).drop_last() =~= hex(b / 16));
        assert(hex(a).last() == hex_digit(a % 16));
        assert(hex(b).last() == hex_digit(b % 16));
        hex_injective(a / 16, b / 16);
        hex_digit_injective(a % 16, b % 16);
    }
}

proof fn hex_nonempty(n: nat)
    ensures
        hex(n).len() >= 1,
    decreases n,
{
    if n >= 16 {
        hex_nonempty(n / 16);
    }
}

/// A hexadecimal numeral holds no hyphen.
pub proof fn hex_has_no_hyphen(n: nat, i: int)
    requires
        0 <= i < hex(n).len(),
    ensures
        hex(n)[i] != '-',
    decreases n,
{
    if n >= 16 {
        if i < hex(n / 16).len() {
            hex_has_no_hyphen(n / 16, i);
        }
    }
}

/// Trimming takes white space away from both ends of a text and nothing else:
/// what begins and ends with another character stays whole, whatever is in it.
pub proof fn trimming_keeps_what_is_between(before: Seq<char>, middle: Seq<char>, behind: Seq<char>)
    requires
        forall|i: int| 0 <= i < before.len() ==> is_space(#[trigger] before[i]),
        forall|i: int| 0 <= i < behind.len() ==> is_space(#[trigger] behind[i]),
        middle.len() > 0 ==> !is_space(middle[0]) && !is_space(middle.last()),
    ensures
        trimmed(before + middle + behind) == middle,
    decreases before.len() + behind.len(),
{
    let s = before + middle + behind;
    if before.len() > 0 {
        let rest = before.subrange(1, before.len() as int);
        assert forall|i: int| 0 <= i < rest.len() implies is_space(#[trigger] rest[i]) by {
            assert(rest[i] == before[i + 1]);
        }
        assert(s[0] == before[0]);
        assert(s.subrange(1, s.len() as int) =~= rest + middle + behind);
        trimming_keeps_what_is_between(rest, middle, behind);
    } else if middle.len() == 0 {
        assert(s =~= behind);
        all_space_is_trimmed(behind);
    } else {
        assert(s[0] == middle[0]);
        assert(trim_start(s) == s);
        space_behind_is_trimmed(middle, behind);
        assert(s =~= middle + behind);
    }
}

proof fn all_space_is_trimmed(s: Seq<char>)
    requires
        forall|i: int| 0 <= i < s.len() ==> is_space(#[trigger] s[i]),
    ensures
        trim_start(s) == Seq::<char>::empty(),
        trimmed(s) == Seq::<char>::empty(),
    decreases s.len(),
{
    if s.len() > 0 {
        let rest = s.subrange(1, s.len() as int);
        assert forall|i: int| 0 <= i < rest.len() implies is_space(#[trigger] rest[i]) by {
            assert(rest[i] == s[i + 1]);
        }
        all_space_is_trimmed(rest);
    } else {
        assert(s =~= Seq::<char>::empty());
    }
}

proof fn space_behind_is_trimmed(middle: Seq<char>, behind: Seq<char>)
    requires
        middle.len() > 0,
        !is_space(middle.last()),
        forall|i: int| 0 <= i < behind.len() ==> is_space(#[trigger] behind[i]),
    ensures
        trim_end(middle + behind) == middle,
    decreases behind.len(),
{
    let s = middle + behind;
    if behind.len() > 0 {
        assert(s.last() == behind[behind.len() - 1]);
        assert(s.drop_last() =~= middle + behind.drop_last());
        space_behind_is_trimmed(middle, behind.drop_last());
    } else {
        assert(s =~= middle);
    }
}

/// Tabs, line ends and spaces are white space, and nothing else of ASCII is.
pub proof fn plain_white_space(c: char)
    requires
        (c as u32) < 128,
    ensures
        is_space(c) <==> c == ' ' || c == '\t' || c == '\n' || c == '\r' || c == '\u{b}' || c
            == '\u{c}',
{
}

/// A text begins with what it was put behind, and ends with what was put behind
/// it. Nothing else does.
pub proof fn prefixes_and_suffixes<T>(a: Seq<T>, b: Seq<T>, s: Seq<T>)
    ensures
        has_prefix(a + b, a),
        has_suffix(a + b, b),
        has_prefix(s, a) ==> s == a + s.skip(a.len() as int),
        has_suffix(s, b) ==> s == s.take(s.len() - b.len()) + b,
{
    assert((a + b).subrange(0, a.len() as int) =~= a);
    assert((a + b).subrange((a + b).len() - b.len(), (a + b).len() as int) =~= b);
    if has_prefix(s, a) {
        assert(s =~= s.subrange(0, a.len() as int) + s.skip(a.len() as int));
    }
    if has_suffix(s, b) {
        assert(s =~= s.take(s.len() - b.len()) + s.subrange(s.len() - b.len(), s.len() as int));
    }
}

/// The number that a digit stands for, in hexadecimal too.
pub open spec fn digit_number(c: char) -> nat {
    if '0' <= c <= '9' {
        (c as u32 - '0' as u32) as nat
    } else {
        (c as u32 - 'a' as u32) as nat + 10
    }
}

/// The number that digits denote in the positional system of `base`, read from
/// the front.
pub open spec fn positional(s: Seq<char>, base: nat) -> nat
    decreases s.len(),
{
    if s.len() == 0 {
        0
    } else {
        digit_number(s[0]) * vstd::arithmetic::power::pow(base as int, (s.len() - 1) as nat) as nat
            + positional(s.subrange(1, s.len() as int), base)
    }
}

proof fn positional_push(s: Seq<char>, c: char, base: nat)
    requires
        base > 0,
    ensures
        positional(s.push(c), base) == positional(s, base) * base + digit_number(c),
    decreases s.len(),
{
    let t = s.push(c);
    reveal_with_fuel(positional, 2);
    vstd::arithmetic::power::lemma_pow0(base as int);
    if s.len() == 0 {
        assert(t.subrange(1, 1) =~= Seq::<char>::empty());
        assert(positional(s, base) == 0 && 0 * base == 0);
        assert(digit_number(c) * 1 == digit_number(c));
        assert(positional(t, base) == digit_number(c) * 1 + positional(Seq::<char>::empty(), base));
    } else {
        let rest = s.subrange(1, s.len() as int);
        assert(t.subrange(1, t.len() as int) =~= rest.push(c));
        positional_push(rest, c, base);
        let n = (s.len() - 1) as nat;
        let p = vstd::arithmetic::power::pow(base as int, n);
        vstd::arithmetic::power::lemma_pow_positive(base as int, n);
        vstd::arithmetic::power::lemma_pow_positive(base as int, s.len());
        reveal(vstd::arithmetic::power::pow);
        assert(vstd::arithmetic::power::pow(base as int, s.len()) == base * p);
        let d = digit_number(s[0]);
        let r = positional(rest, base);
        assert(d * (base * p) + (r * base + digit_number(c)) == (d * p + r) * base + digit_number(
            c,
        )) by (nonlinear_arith);
        assert(t[0] == s[0]);
        assert(base * p >= 0 && p >= 0);
        assert(positional(s, base) == d * p + r);
        assert(positional(t, base) == d * (base * p) + positional(rest.push(c), base));
    }
}

/// What digits denote is what they stand for at their places: the last one for
/// ones, the one before it for tens, and so on.
pub proof fn digits_denote_by_their_places(s: Seq<char>)
    requires
        forall|i: int| 0 <= i < s.len() ==> '0' <= #[trigger] s[i] <= '9',
    ensures
        decimal_value(s) == positional(s, 10),
    decreases s.len(),
{
    if s.len() > 0 {
        let front = s.drop_last();
        assert forall|i: int| 0 <= i < front.len() implies '0' <= #[trigger] front[i] <= '9' by {
            assert(front[i] == s[i]);
        }
        digits_denote_by_their_places(front);
        assert(front.push(s.last()) =~= s);
        assert('0' <= s[s.len() - 1] <= '9');
        positional_push(front, s.last(), 10);
    }
}

/// The numeral of a number denotes that number, is made of digits, and has no zero
/// before it.
pub proof fn numerals_denote_their_number(n: nat)
    ensures
        positional(dec(n), 10) == n,
        decimal_value(dec(n)) == n,
        dec(n).len() > 0,
        forall|i: int| 0 <= i < dec(n).len() ==> '0' <= #[trigger] dec(n)[i] <= '9',
        n > 0 ==> dec(n)[0] != '0',
    decreases n,
{
    let last = hex_digit(n % 10);
    assert('0' <= last <= '9');
    assert(digit_number(last) == n % 10);
    if n < 10 {
        assert(dec(n) =~= Seq::<char>::empty().push(last));
        positional_push(Seq::<char>::empty(), last, 10);
        assert(positional(Seq::<char>::empty(), 10) == 0);
    } else {
        numerals_denote_their_number(n / 10);
        positional_push(dec(n / 10), last, 10);
        let all = dec(n);
        assert forall|i: int| 0 <= i < all.len() implies '0' <= #[trigger] all[i] <= '9' by {
            if i < dec(n / 10).len() {
                assert(all[i] == dec(n / 10)[i]);
            }
        }
        assert(all[0] == dec(n / 10)[0]);
    }
    digits_denote_by_their_places(dec(n));
}

/// The hexadecimal numeral of a number denotes that number, and is made of digits
/// and the letters from `a` to `f`.
pub proof fn hex_numerals_denote_their_number(n: nat)
    ensures
        positional(hex(n), 16) == n,
        hex(n).len() > 0,
        forall|i: int|
            0 <= i < hex(n).len() ==> ('0' <= #[trigger] hex(n)[i] <= '9' || 'a' <= hex(n)[i]
                <= 'f'),
        n > 0 ==> hex(n)[0] != '0',
    decreases n,
{
    let last = hex_digit(n % 16);
    assert('0' <= last <= '9' || 'a' <= last <= 'f');
    assert(digit_number(last) == n % 16);
    if n < 16 {
        assert(hex(n) =~= Seq::<char>::empty().push(last));
        positional_push(Seq::<char>::empty(), last, 16);
        assert(positional(Seq::<char>::empty(), 16) == 0);
    } else {
        hex_numerals_denote_their_number(n / 16);
        positional_push(hex(n / 16), last, 16);
        let all = hex(n);
        assert forall|i: int| 0 <= i < all.len() implies ('0' <= #[trigger] all[i] <= '9' || 'a'
            <= all[i] <= 'f') by {
            if i < hex(n / 16).len() {
                assert(all[i] == hex(n / 16)[i]);
            }
        }
        assert(all[0] == hex(n / 16)[0]);
    }
}

/// Parsing the numeral of a number gives the number back where it is not too
/// large, with a sign before it too, and nothing where it is.
pub proof fn numerals_are_parsed(n: nat, max: nat)
    ensures
        n <= max ==> unsigned(dec(n), max) == Some(n) && unsigned(seq!['+'] + dec(n), max) == Some(
            n,
        ),
        n > max ==> unsigned(dec(n), max) is None && unsigned(seq!['+'] + dec(n), max) is None,
        unsigned(seq!['-'] + dec(n), max) is None,
        n < 0x8000_0000 ==> signed32(dec(n)) == Some(n as int) && signed32(seq!['+'] + dec(n))
            == Some(n as int),
        n >= 0x8000_0000 ==> signed32(dec(n)) is None && signed32(seq!['+'] + dec(n)) is None,
        n <= 0x8000_0000 ==> signed32(seq!['-'] + dec(n)) == Some(-(n as int)),
        n > 0x8000_0000 ==> signed32(seq!['-'] + dec(n)) is None,
{
    let s = dec(n);
    numerals_denote_their_number(n);
    assert('0' <= s[0] <= '9');
    assert forall|i: int| 0 <= i < s.len() implies is_digit(#[trigger] s[i]) by {
        assert('0' <= s[i] <= '9');
    }
    let plus = seq!['+'] + s;
    let minus = seq!['-'] + s;
    assert(plus.subrange(1, plus.len() as int) =~= s);
    assert(minus.subrange(1, minus.len() as int) =~= s);
    assert(!is_digit(minus[0]));
}

/// What holds anything but digits behind its sign is no number, nor is what holds
/// no digit.
pub proof fn other_texts_are_no_numbers(s: Seq<char>, i: int, max: nat)
    requires
        0 <= i < s.len(),
        (s[i] as u32) < ('0' as u32) || s[i] as u32 > '9' as u32,
        i > 0 || (s[0] != '+' && s[0] != '-') || s.len() == 1,
    ensures
        unsigned(s, max) is None,
        signed32(s) is None,
        unsigned(Seq::empty(), max) is None,
        signed32(Seq::empty()) is None,
{
    let rest = s.subrange(1, s.len() as int);
    assert(!is_digit(s[i]));
    if i > 0 {
        assert(rest[i - 1] == s[i]);
        assert(!is_digit(rest[i - 1]));
    }
}

/// A number that a text denotes is within the bound.
pub proof fn numbers_stay_below(s: Seq<char>, max: nat)
    ensures
        unsigned(s, max) matches Some(n) ==> n <= max,
        signed32(s) matches Some(n) ==> -0x8000_0000 <= n <= 0x7fff_ffff,
{
}

/// Whether `part` stands somewhere in `s`.
pub open spec fn mentions(s: Seq<char>, part: Seq<char>) -> bool {
    exists|i: int|
        0 <= i <= s.len() - part.len() && #[trigger] s.subrange(i, i + part.len()) == part
}

/// What was put together of parts mentions each of them, and what the parts
/// mention.
pub proof fn what_is_joined_is_mentioned(before: Seq<char>, part: Seq<char>, behind: Seq<char>)
    ensures
        mentions(before + part + behind, part),
        mentions(before + part, part),
        mentions(part + behind, part),
{
    let i = before.len() as int;
    let n = part.len() as int;
    assert((before + part + behind).subrange(i, i + n) =~= part);
    assert((before + part).subrange(i, i + n) =~= part);
    assert((part + behind).subrange(0, 0 + n) =~= part);
}

/// What stands in a part stands in the whole.
pub proof fn parts_mention_for_the_whole(s: Seq<char>, part: Seq<char>, before: Seq<char>, behind: Seq<char>)
    requires
        mentions(s, part),
    ensures
        mentions(before + s, part),
        mentions(s + behind, part),
{
    let i = choose|i: int|
        0 <= i <= s.len() - part.len() && #[trigger] s.subrange(i, i + part.len()) == part;
    let j = before.len() + i;
    assert((before + s).subrange(j, j + part.len()) =~= part);
    assert((s + behind).subrange(i, i + part.len()) =~= part);
}

} // verus!
