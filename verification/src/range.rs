//! Byte ranges for resumable downloads.
//!
//! A `Range` header is applied when it asks for one byte range. A header with
//! several ranges, with another unit or with malformed syntax is ignored and
//! the whole representation is sent. A range with valid syntax that the
//! representation cannot satisfy is refused.

use crate::text::{
    dec, find, find_char, has_prefix, hex, hex_has_no_hyphen, hex_injective,
    hex_numerals_denote_their_number, is_space, lemma_find, numerals_are_parsed,
    numerals_denote_their_number, parse_unsigned, positional, push_hex, same_chars, starts_with,
    to_chars, trim, trimmed, trimming_keeps_what_is_between, unsigned,
};
use vstd::prelude::*;

verus! {

/// The part of a representation that a response sends.
#[derive(Debug, Clone, Copy, PartialEq, Eq, Structural)]
pub enum ByteRange {
    /// The whole representation.
    Full,
    /// The bytes from `start` to `end`, both of them sent.
    Single { start: u64, end: u64 },
    /// Nothing: the range has valid syntax and cannot be satisfied.
    Unsatisfiable,
}

/// A single byte range as a client writes it.
#[derive(Debug, Clone, Copy, PartialEq, Eq, Structural)]
pub enum RangeSpec {
    /// `-n`: the last `n` bytes.
    Suffix(u64),
    /// `a-`: from byte `a` to the end.
    From(u64),
    /// `a-b`: from byte `a` to byte `b`.
    Between(u64, u64),
}

/// The single range that the text behind `bytes=` asks for, or `None` where
/// the text is malformed or asks for several ranges.
pub open spec fn range_spec(s: Seq<char>) -> Option<RangeSpec> {
    let dash = find(s, '-');
    let first = trimmed(s.subrange(0, dash));
    let last = trimmed(s.subrange(dash + 1, s.len() as int));
    if find(s, ',') < s.len() || dash >= s.len() {
        None
    } else if first.len() == 0 {
        match unsigned(last, u64::MAX as nat) {
            Some(n) => Some(RangeSpec::Suffix(n as u64)),
            None => None,
        }
    } else {
        match unsigned(first, u64::MAX as nat) {
            None => None,
            Some(a) => if last.len() == 0 {
                Some(RangeSpec::From(a as u64))
            } else {
                match unsigned(last, u64::MAX as nat) {
                    Some(b) => Some(RangeSpec::Between(a as u64, b as u64)),
                    None => None,
                }
            },
        }
    }
}

/// What `r` selects from a representation of `size` bytes.
pub open spec fn resolve_spec(r: RangeSpec, size: u64) -> ByteRange {
    match r {
        RangeSpec::Suffix(n) => if n == 0 || size == 0 {
            ByteRange::Unsatisfiable
        } else {
            ByteRange::Single {
                start: if n < size {
                    (size - n) as u64
                } else {
                    0
                },
                end: (size - 1) as u64,
            }
        },
        RangeSpec::From(a) => if a < size {
            ByteRange::Single { start: a, end: (size - 1) as u64 }
        } else {
            ByteRange::Unsatisfiable
        },
        RangeSpec::Between(a, b) => if a > b || a >= size {
            ByteRange::Unsatisfiable
        } else {
            ByteRange::Single {
                start: a,
                end: if b < size {
                    b
                } else {
                    (size - 1) as u64
                },
            }
        },
    }
}

/// What a `Range` header selects from a representation of `size` bytes.
pub open spec fn selected_range(header: Option<Seq<char>>, size: u64) -> ByteRange {
    match header {
        None => ByteRange::Full,
        Some(value) => {
            let t = trimmed(value);
            if !has_prefix(t, "bytes="@) {
                ByteRange::Full
            } else {
                match range_spec(t.subrange("bytes="@.len() as int, t.len() as int)) {
                    None => ByteRange::Full,
                    Some(r) => resolve_spec(r, size),
                }
            }
        },
    }
}

fn parse_range_spec(s: &[char]) -> (r: Option<RangeSpec>)
    ensures
        r == range_spec(s@),
{
    let comma = find_char(s, ',');
    let dash = find_char(s, '-');
    if comma < s.len() || dash >= s.len() {
        return None;
    }
    let first = trim(vstd::slice::slice_subrange(s, 0, dash));
    let last = trim(vstd::slice::slice_subrange(s, dash + 1, s.len()));
    if first.len() == 0 {
        return match parse_unsigned(last, u64::MAX) {
            Some(n) => Some(RangeSpec::Suffix(n)),
            None => None,
        };
    }
    match parse_unsigned(first, u64::MAX) {
        None => None,
        Some(a) => if last.len() == 0 {
            Some(RangeSpec::From(a))
        } else {
            match parse_unsigned(last, u64::MAX) {
                Some(b) => Some(RangeSpec::Between(a, b)),
                None => None,
            }
        },
    }
}

fn resolve(r: RangeSpec, size: u64) -> (b: ByteRange)
    ensures
        b == resolve_spec(r, size),
{
    match r {
        RangeSpec::Suffix(n) => if n == 0 || size == 0 {
            ByteRange::Unsatisfiable
        } else {
            let start: u64 = if n < size {
                size - n
            } else {
                0
            };
            ByteRange::Single { start, end: size - 1 }
        },
        RangeSpec::From(a) => if a < size {
            ByteRange::Single { start: a, end: size - 1 }
        } else {
            ByteRange::Unsatisfiable
        },
        RangeSpec::Between(a, b) => if a > b || a >= size {
            ByteRange::Unsatisfiable
        } else {
            let end: u64 = if b < size {
                b
            } else {
                size - 1
            };
            ByteRange::Single { start: a, end }
        },
    }
}

/// Parses a `Range` header value against a representation of `size` bytes.
pub fn parse_range(header: Option<&str>, size: u64) -> (r: ByteRange)
    ensures
        r == selected_range(
            match header {
                Some(h) => Some(h@),
                None => None,
            },
            size,
        ),
        r matches ByteRange::Single { start, end } ==> start <= end < size,
{
    let value = match header {
        Some(h) => h,
        None => return ByteRange::Full,
    };
    let chars = to_chars(value);
    let t = trim(chars.as_slice());
    if !starts_with(t, "bytes=") {
        return ByteRange::Full;
    }
    proof {
        reveal_strlit("bytes=");
    }
    match parse_range_spec(vstd::slice::slice_subrange(t, 6, t.len())) {
        None => ByteRange::Full,
        Some(r) => resolve(r, size),
    }
}

/// The entity tag of a representation: size and modification time in
/// hexadecimal, in quotes.
pub open spec fn etag(size: nat, mtime_secs: nat) -> Seq<char> {
    seq!['"'] + hex(size) + seq!['-'] + hex(mtime_secs) + seq!['"']
}

/// The entity tag of a representation of `size` bytes that was last modified
/// at `mtime_secs`.
pub fn make_etag(size: u64, mtime_secs: u64) -> (r: String)
    ensures
        r@ == etag(size as nat, mtime_secs as nat),
{
    let mut out = String::new();
    out.push('"');
    push_hex(&mut out, size);
    out.push('-');
    push_hex(&mut out, mtime_secs);
    out.push('"');
    assert(out@ =~= etag(size as nat, mtime_secs as nat));
    out
}

/// Whether an `If-Range` value lets the range be applied: there is none, or it
/// is the entity tag.
pub fn if_range_allows(if_range: Option<&str>, etag: &str) -> (r: bool)
    ensures
        r == match if_range {
            None => true,
            Some(value) => trimmed(value@) == etag@,
        },
{
    match if_range {
        None => true,
        Some(value) => {
            let chars = to_chars(value);
            let tag = to_chars(etag);
            same_chars(trim(chars.as_slice()), tag.as_slice())
        },
    }
}

/// A representation whose size or modification time differs has another entity
/// tag.
pub proof fn etag_changes_with_the_file(size1: nat, mtime1: nat, size2: nat, mtime2: nat)
    requires
        etag(size1, mtime1) == etag(size2, mtime2),
    ensures
        size1 == size2,
        mtime1 == mtime2,
{
    let e = etag(size1, mtime1);
    let n1 = hex(size1).len() as int;
    let n2 = hex(size2).len() as int;
    assert(e[1 + n1] == '-');
    assert(e[1 + n2] == '-') by {
        assert(etag(size2, mtime2)[1 + n2] == '-');
    }
    if n1 < n2 {
        assert(etag(size2, mtime2)[1 + n1] == hex(size2)[n1]);
        hex_has_no_hyphen(size2, n1);
    }
    if n2 < n1 {
        assert(e[1 + n2] == hex(size1)[n2]);
        hex_has_no_hyphen(size1, n2);
    }
    assert(e.subrange(1, 1 + n1) =~= hex(size1));
    assert(etag(size2, mtime2).subrange(1, 1 + n2) =~= hex(size2));
    hex_injective(size1, size2);
    let m = e.len() - 1;
    assert(e.subrange(2 + n1, m) =~= hex(mtime1));
    assert(etag(size2, mtime2).subrange(2 + n2, m) =~= hex(mtime2));
    hex_injective(mtime1, mtime2);
}

proof fn numerals_are_trimmed(n: nat)
    ensures
        trimmed(dec(n)) == dec(n),
        !is_space(dec(n)[0]),
        !is_space(dec(n).last()),
        forall|i: int|
            0 <= i < dec(n).len() ==> #[trigger] dec(n)[i] != '-' && dec(n)[i] != ',',
{
    let s = dec(n);
    numerals_denote_their_number(n);
    assert('0' <= s[0] <= '9');
    assert('0' <= s[s.len() - 1] <= '9');
    let none = Seq::<char>::empty();
    assert(none + s + none =~= s);
    trimming_keeps_what_is_between(none, s, none);
    assert forall|i: int| 0 <= i < s.len() implies #[trigger] s[i] != '-' && s[i] != ',' by {
        assert('0' <= s[i] <= '9');
    }
}

proof fn spec_of(first: Seq<char>, last: Seq<char>)
    requires
        forall|i: int| 0 <= i < first.len() ==> #[trigger] first[i] != '-' && first[i] != ',',
        forall|i: int| 0 <= i < last.len() ==> #[trigger] last[i] != '-' && last[i] != ',',
    ensures
        ({
            let s = first + seq!['-'] + last;
            &&& find(s, '-') == first.len()
            &&& find(s, ',') == s.len()
            &&& s.subrange(0, first.len() as int) == first
            &&& s.subrange(first.len() as int + 1, s.len() as int) == last
        }),
{
    let s = first + seq!['-'] + last;
    let dash = first.len() as int;
    assert forall|j: int| 0 <= j < dash implies s[j] != '-' by {
        assert(s[j] == first[j]);
    }
    lemma_find(s, '-', dash);
    assert forall|j: int| 0 <= j < s.len() implies s[j] != ',' by {
        if j < dash {
            assert(s[j] == first[j]);
        } else if j > dash {
            assert(s[j] == last[j - dash - 1]);
        }
    }
    lemma_find(s, ',', s.len() as int);
    assert(s.subrange(0, dash) =~= first);
    assert(s.subrange(dash + 1, s.len() as int) =~= last);
}

proof fn header_of(s: Seq<char>, size: u64)
    requires
        s.len() > 0,
        !is_space(s.last()),
    ensures
        selected_range(Some("bytes="@ + s), size) == match range_spec(s) {
            None => ByteRange::Full,
            Some(r) => resolve_spec(r, size),
        },
{
    reveal_strlit("bytes=");
    let t = "bytes="@ + s;
    let none = Seq::<char>::empty();
    assert(t[0] == 'b');
    assert(t.last() == s.last());
    assert(none + t + none =~= t);
    trimming_keeps_what_is_between(none, t, none);
    assert(t.subrange(0, 6) =~= "bytes="@);
    assert(t.subrange(6, t.len() as int) =~= s);
}

/// A range between two bytes selects them and what lies between them, up to the
/// end of the representation, and cannot be satisfied where there is no such byte.
pub proof fn ranges_between_bytes(a: u64, b: u64, size: u64)
    ensures
        ({
            let r = selected_range(
                Some("bytes="@ + (dec(a as nat) + seq!['-'] + dec(b as nat))),
                size,
            );
            &&& a <= b < size ==> r == (ByteRange::Single { start: a, end: b })
            &&& a < size <= b ==> r == (ByteRange::Single { start: a, end: (size - 1) as u64 })
            &&& a > b || a >= size ==> r == ByteRange::Unsatisfiable
        }),
{
    let first = dec(a as nat);
    let last = dec(b as nat);
    numerals_are_trimmed(a as nat);
    numerals_are_trimmed(b as nat);
    numerals_denote_their_number(a as nat);
    numerals_denote_their_number(b as nat);
    numerals_are_parsed(a as nat, u64::MAX as nat);
    numerals_are_parsed(b as nat, u64::MAX as nat);
    spec_of(first, last);
    let s = first + seq!['-'] + last;
    assert(s.last() == last.last());
    header_of(s, size);
}

/// A range from a byte selects that byte and all behind it.
pub proof fn ranges_from_a_byte(a: u64, size: u64)
    ensures
        ({
            let r = selected_range(
                Some("bytes="@ + (dec(a as nat) + seq!['-'] + Seq::<char>::empty())),
                size,
            );
            &&& a < size ==> r == (ByteRange::Single { start: a, end: (size - 1) as u64 })
            &&& a >= size ==> r == ByteRange::Unsatisfiable
        }),
{
    let first = dec(a as nat);
    let none = Seq::<char>::empty();
    numerals_are_trimmed(a as nat);
    numerals_denote_their_number(a as nat);
    numerals_are_parsed(a as nat, u64::MAX as nat);
    spec_of(first, none);
    let s = first + seq!['-'] + none;
    assert(s.last() == '-');
    assert(none + none + none =~= none);
    trimming_keeps_what_is_between(none, none, none);
    header_of(s, size);
}

/// A range of the last bytes selects that many of them, and all where there are
/// fewer. The last 0 bytes and the last bytes of nothing cannot be had.
pub proof fn ranges_of_the_last_bytes(n: u64, size: u64)
    ensures
        ({
            let r = selected_range(
                Some("bytes="@ + (Seq::<char>::empty() + seq!['-'] + dec(n as nat))),
                size,
            );
            &&& n > 0 && size > 0 ==> (r matches ByteRange::Single { start, end } && end + 1 == size
                && (n <= size ==> end - start + 1 == n) && (n > size ==> start == 0))
            &&& n == 0 || size == 0 ==> r == ByteRange::Unsatisfiable
        }),
{
    let last = dec(n as nat);
    let none = Seq::<char>::empty();
    numerals_are_trimmed(n as nat);
    numerals_denote_their_number(n as nat);
    numerals_are_parsed(n as nat, u64::MAX as nat);
    spec_of(none, last);
    let s = none + seq!['-'] + last;
    assert(s.last() == last.last());
    assert(none + none + none =~= none);
    trimming_keeps_what_is_between(none, none, none);
    header_of(s, size);
}

/// Several ranges, a range without a hyphen and another unit are ignored: the
/// whole representation is sent. White space around the header changes nothing.
pub proof fn other_headers_are_ignored(s: Seq<char>, i: int, size: u64)
    requires
        s.len() > 0,
        !is_space(s.last()),
    ensures
        0 <= i < s.len() && s[i] == ',' ==> selected_range(Some("bytes="@ + s), size)
            == ByteRange::Full,
        (forall|j: int| 0 <= j < s.len() ==> s[j] != '-') ==> selected_range(
            Some("bytes="@ + s),
            size,
        ) == ByteRange::Full,
        !is_space(s[0]) && !(s.len() >= 6 && s.take(6) == "bytes="@) ==> selected_range(
            Some(s),
            size,
        ) == ByteRange::Full,
        !is_space(s[0]) ==> selected_range(Some(seq![' '] + s + seq![' ']), size)
            == selected_range(Some(s), size),
        selected_range(None, size) == ByteRange::Full,
{
    reveal_strlit("bytes=");
    header_of(s, size);
    if 0 <= i < s.len() && s[i] == ',' {
        find_is_before(s, ',', i);
    }
    if forall|j: int| 0 <= j < s.len() ==> s[j] != '-' {
        lemma_find(s, '-', s.len() as int);
    }
    if !is_space(s[0]) {
        let none = Seq::<char>::empty();
        assert(none + s + none =~= s);
        trimming_keeps_what_is_between(none, s, none);
        trimming_keeps_what_is_between(seq![' '], s, seq![' ']);
        if has_prefix(s, "bytes="@) {
            assert(s.take(6) =~= s.subrange(0, 6));
        }
    }
}

proof fn find_is_before(s: Seq<char>, c: char, i: int)
    requires
        0 <= i < s.len(),
        s[i] == c,
    ensures
        find(s, c) <= i,
    decreases s.len(),
{
    if s[0] != c {
        let rest = s.subrange(1, s.len() as int);
        assert(rest[i - 1] == c);
        find_is_before(rest, c, i - 1);
    }
}

/// An entity tag shows the size and the modification time in hexadecimal, with a
/// hyphen between them and quotes around them.
pub proof fn etags_show_size_and_time(size: nat, mtime_secs: nat) -> (k: int)
    ensures
        ({
            let e = etag(size, mtime_secs);
            &&& 0 < k < e.len() - 1
            &&& e[k] == '-'
            &&& e[0] == '"' && e.last() == '"'
            &&& positional(e.subrange(1, k), 16) == size
            &&& positional(e.subrange(k + 1, e.len() - 1), 16) == mtime_secs
        }),
{
    let e = etag(size, mtime_secs);
    let k = 1 + hex(size).len() as int;
    hex_numerals_denote_their_number(size);
    hex_numerals_denote_their_number(mtime_secs);
    assert(e.subrange(1, k) =~= hex(size));
    assert(e.subrange(k + 1, e.len() - 1) =~= hex(mtime_secs));
    assert(e[k] == '-');
    k
}

} // verus!
