//! Decoding of a byte stream that arrives in chunks as UTF-8 text.
//!
//! A chunk may end inside the encoding of a character. The bytes of that
//! character that have arrived are held back and decoded with the next chunk,
//! so the text does not depend on where the chunks were cut.

use vstd::prelude::*;
use vstd::utf8::*;

verus! {

/// `char::from_u32` gives the character with that scalar value, and `None`
/// where no character has it.
pub assume_specification[ char::from_u32 ](i: u32) -> (r: Option<char>)
    ensures
        match r {
            Some(c) => c as u32 == i,
            None => 0xd800 <= i <= 0xdfff || i > 0x10ffff,
        },
;

/// The number of bytes in an encoding that starts with `b`, or 0 where no
/// encoding starts so.
pub open spec fn lead_width(b: u8) -> int {
    if b <= 0x7f {
        1
    } else if 0xc2 <= b <= 0xdf {
        2
    } else if 0xe0 <= b <= 0xef {
        3
    } else if 0xf0 <= b <= 0xf4 {
        4
    } else {
        0
    }
}

pub open spec fn is_tail_byte(b: u8) -> bool {
    0x80 <= b <= 0xbf
}

/// Whether `b` can stand behind the first byte `lead`. The bounds leave out
/// overlong encodings, surrogates and values above the largest character.
pub open spec fn second_byte_ok(lead: u8, b: u8) -> bool {
    if lead == 0xe0 {
        0xa0 <= b <= 0xbf
    } else if lead == 0xed {
        0x80 <= b <= 0x9f
    } else if lead == 0xf0 {
        0x90 <= b <= 0xbf
    } else if lead == 0xf4 {
        0x80 <= b <= 0x8f
    } else {
        is_tail_byte(b)
    }
}

/// How many bytes at the front of `s` are the beginning of an encoding.
pub open spec fn good_prefix(s: Seq<u8>) -> int {
    let w = lead_width(s[0]);
    if s.len() == 0 || w == 0 {
        0
    } else if w == 1 || s.len() == 1 || !second_byte_ok(s[0], s[1]) {
        1
    } else if w == 2 || s.len() == 2 || !is_tail_byte(s[2]) {
        2
    } else if w == 3 || s.len() == 3 || !is_tail_byte(s[3]) {
        3
    } else {
        4
    }
}

/// What stands at the front of a byte sequence.
pub enum Front {
    /// The whole encoding of a character, in that many bytes.
    Whole(int),
    /// Bytes that begin no encoding, in that number.
    Invalid(int),
    /// An encoding that breaks off at the end of the sequence.
    Broken,
}

/// What stands at the front of `s`, which is not empty.
pub open spec fn front(s: Seq<u8>) -> Front {
    let w = lead_width(s[0]);
    let g = good_prefix(s);
    if w > 0 && g == w {
        Front::Whole(w)
    } else if w > 0 && g == s.len() {
        Front::Broken
    } else if w > 0 {
        Front::Invalid(g)
    } else {
        Front::Invalid(1)
    }
}

/// The scalar value of the encoding at the front of `s`.
pub open spec fn scalar(s: Seq<u8>) -> int {
    let w = lead_width(s[0]);
    if w == 1 {
        s[0] as int
    } else if w == 2 {
        (s[0] - 0xc0) * 0x40 + (s[1] - 0x80)
    } else if w == 3 {
        (s[0] - 0xe0) * 0x1000 + (s[1] - 0x80) * 0x40 + (s[2] - 0x80)
    } else {
        (s[0] - 0xf0) * 0x40000 + (s[1] - 0x80) * 0x1000 + (s[2] - 0x80) * 0x40 + (s[3] - 0x80)
    }
}

/// The text of `s`: each whole encoding as its character, each invalid part as
/// U+FFFD, and nothing for an encoding that breaks off at the end.
pub open spec fn decoded(s: Seq<u8>) -> Seq<char>
    decreases s.len(),
{
    if s.len() == 0 {
        seq![]
    } else {
        match front(s) {
            Front::Whole(w) => seq![scalar(s) as char] + decoded(s.subrange(w, s.len() as int)),
            Front::Invalid(w) => seq!['\u{FFFD}'] + decoded(s.subrange(w, s.len() as int)),
            Front::Broken => seq![],
        }
    }
}

/// The encoding that breaks off at the end of `s`, or nothing.
pub open spec fn held(s: Seq<u8>) -> Seq<u8>
    decreases s.len(),
{
    if s.len() == 0 {
        s
    } else {
        match front(s) {
            Front::Whole(w) => held(s.subrange(w, s.len() as int)),
            Front::Invalid(w) => held(s.subrange(w, s.len() as int)),
            Front::Broken => s,
        }
    }
}

/// Whether `s` holds no invalid part.
pub open spec fn clean(s: Seq<u8>) -> bool
    decreases s.len(),
{
    if s.len() == 0 {
        true
    } else {
        match front(s) {
            Front::Whole(w) => clean(s.subrange(w, s.len() as int)),
            Front::Invalid(w) => false,
            Front::Broken => true,
        }
    }
}

/// `t` with each carriage return, and a line feed behind it, as one line feed.
pub open spec fn normalized(t: Seq<char>) -> Seq<char>
    decreases t.len(),
{
    if t.len() == 0 {
        t
    } else if t[0] == '\r' && t.len() > 1 && t[1] == '\n' {
        seq!['\n'] + normalized(t.subrange(2, t.len() as int))
    } else if t[0] == '\r' {
        seq!['\n'] + normalized(t.subrange(1, t.len() as int))
    } else {
        seq![t[0]] + normalized(t.subrange(1, t.len() as int))
    }
}

/// Decodes `bytes` up to an encoding that breaks off at the end. The second
/// result is the number of bytes before it, the third whether no part of them
/// was invalid.
fn decode(bytes: &[u8]) -> (r: (Vec<char>, usize, bool))
    ensures
        r.0@ == decoded(bytes@),
        r.1 <= bytes@.len(),
        bytes@.subrange(r.1 as int, bytes@.len() as int) == held(bytes@),
        r.2 == clean(bytes@),
{
    let n: usize = bytes.len();
    let mut out: Vec<char> = Vec::new();
    let mut i: usize = 0;
    let mut ok = true;
    assert(bytes@.subrange(0, n as int) =~= bytes@);
    while i < n
        invariant_except_break
            i <= n,
            n == bytes@.len(),
            out@ + decoded(bytes@.subrange(i as int, n as int)) == decoded(bytes@),
            held(bytes@.subrange(i as int, n as int)) == held(bytes@),
            (ok && clean(bytes@.subrange(i as int, n as int))) == clean(bytes@),
        ensures
            i <= n,
            n == bytes@.len(),
            out@ == decoded(bytes@),
            bytes@.subrange(i as int, n as int) == held(bytes@),
            ok == clean(bytes@),
        decreases n - i,
    {
        let ghost rest = bytes@.subrange(i as int, n as int);
        let b0: u8 = bytes[i];
        let width: usize = if b0 <= 0x7f {
            1
        } else if 0xc2 <= b0 && b0 <= 0xdf {
            2
        } else if 0xe0 <= b0 && b0 <= 0xef {
            3
        } else if 0xf0 <= b0 && b0 <= 0xf4 {
            4
        } else {
            0
        };
        assert(width == lead_width(rest[0]));
        let left: usize = n - i;
        let good: usize = if width == 0 {
            0
        } else if width == 1 || left == 1 || !second_byte_fits(b0, bytes[i + 1]) {
            1
        } else if width == 2 || left == 2 || !tail_byte(bytes[i + 2]) {
            2
        } else if width == 3 || left == 3 || !tail_byte(bytes[i + 3]) {
            3
        } else {
            4
        };
        assert(good == good_prefix(rest));
        if width > 0 && good == width {
            let code: u32 = if width == 1 {
                b0 as u32
            } else if width == 2 {
                (b0 as u32 - 0xc0) * 0x40 + (bytes[i + 1] as u32 - 0x80)
            } else if width == 3 {
                (b0 as u32 - 0xe0) * 0x1000 + (bytes[i + 1] as u32 - 0x80) * 0x40 + (bytes[i
                    + 2] as u32 - 0x80)
            } else {
                (b0 as u32 - 0xf0) * 0x40000 + (bytes[i + 1] as u32 - 0x80) * 0x1000 + (bytes[i
                    + 2] as u32 - 0x80) * 0x40 + (bytes[i + 3] as u32 - 0x80)
            };
            assert(code == scalar(rest));
            assert(code <= 0x10ffff && !(0xd800 <= code <= 0xdfff)) by {
                assert(width == 3 ==> second_byte_ok(rest[0], rest[1]) && is_tail_byte(rest[2]));
                assert(width == 4 ==> second_byte_ok(rest[0], rest[1]) && is_tail_byte(rest[2])
                    && is_tail_byte(rest[3]));
            }
            let c: char = match char::from_u32(code) {
                Some(c) => c,
                None => '\u{FFFD}',
            };
            proof {
                assert(c as u32 == code);
                char_u32_cast(c, code);
            }
            assert(c == scalar(rest) as char);
            let ghost before = out@;
            out.push(c);
            proof {
                assert(rest.subrange(width as int, rest.len() as int) =~= bytes@.subrange(
                    i + width,
                    n as int,
                ));
                assert(front(rest) == Front::Whole(width as int));
                assert(out@ + decoded(bytes@.subrange(i + width, n as int)) =~= before + decoded(
                    rest,
                ));
            }
            i = i + width;
        } else if width > 0 && good == left {
            assert(front(rest) == Front::Broken);
            assert(out@ + decoded(rest) =~= out@);
            break;
        } else {
            let skip: usize = if width > 0 {
                good
            } else {
                1
            };
            let ghost before = out@;
            out.push('\u{FFFD}');
            proof {
                assert(rest.subrange(skip as int, rest.len() as int) =~= bytes@.subrange(
                    i + skip,
                    n as int,
                ));
                assert(front(rest) == Front::Invalid(skip as int));
                assert(out@ + decoded(bytes@.subrange(i + skip, n as int)) =~= before + decoded(
                    rest,
                ));
            }
            ok = false;
            i = i + skip;
        }
        proof {
            if i == n {
                assert(bytes@.subrange(i as int, n as int) =~= seq![]);
                assert(out@ + decoded(bytes@.subrange(i as int, n as int)) =~= out@);
            }
        }
    }
    (out, i, ok)
}

fn tail_byte(b: u8) -> (r: bool)
    ensures
        r == is_tail_byte(b),
{
    0x80 <= b && b <= 0xbf
}

fn second_byte_fits(lead: u8, b: u8) -> (r: bool)
    ensures
        r == second_byte_ok(lead, b),
{
    if lead == 0xe0 {
        0xa0 <= b && b <= 0xbf
    } else if lead == 0xed {
        0x80 <= b && b <= 0x9f
    } else if lead == 0xf0 {
        0x90 <= b && b <= 0xbf
    } else if lead == 0xf4 {
        0x80 <= b && b <= 0x8f
    } else {
        tail_byte(b)
    }
}

fn normalize(t: &[char]) -> (r: String)
    ensures
        r@ == normalized(t@),
{
    let n: usize = t.len();
    let mut out = String::new();
    let mut i: usize = 0;
    assert(t@.subrange(0, n as int) =~= t@);
    while i < n
        invariant
            i <= n,
            n == t@.len(),
            out@ + normalized(t@.subrange(i as int, n as int)) == normalized(t@),
        decreases n - i,
    {
        let ghost rest = t@.subrange(i as int, n as int);
        let ghost before = out@;
        let step: usize = if t[i] == '\r' && n - i > 1 && t[i + 1] == '\n' {
            2
        } else {
            1
        };
        if t[i] == '\r' {
            out.push('\n');
        } else {
            out.push(t[i]);
        }
        proof {
            assert(rest.subrange(step as int, rest.len() as int) =~= t@.subrange(
                i + step,
                n as int,
            ));
            assert(out@ + normalized(t@.subrange(i + step, n as int)) =~= before + normalized(
                rest,
            ));
        }
        i = i + step;
    }
    assert(t@.subrange(n as int, n as int) =~= seq![]);
    assert(out@ + normalized(t@.subrange(n as int, n as int)) =~= out@);
    out
}

/// The bytes of `s` from position `from` on.
fn tail_of(s: &[u8], from: usize) -> (r: Vec<u8>)
    requires
        from <= s@.len(),
    ensures
        r@ == s@.subrange(from as int, s@.len() as int),
{
    let mut out: Vec<u8> = Vec::new();
    let mut i: usize = from;
    while i < s.len()
        invariant
            from <= i <= s@.len(),
            out@ == s@.subrange(from as int, i as int),
        decreases s.len() - i,
    {
        out.push(s[i]);
        assert(s@.subrange(from as int, i + 1) =~= s@.subrange(from as int, i as int).push(
            s@[i as int],
        ));
        i = i + 1;
    }
    out
}

fn joined(a: &[u8], b: &[u8]) -> (r: Vec<u8>)
    ensures
        r@ == a@ + b@,
{
    let mut out = tail_of(a, 0);
    let mut i: usize = 0;
    assert(a@.subrange(0, a@.len() as int) =~= a@);
    assert(out@ =~= a@ + b@.subrange(0, 0));
    while i < b.len()
        invariant
            i <= b@.len(),
            out@ == a@ + b@.subrange(0, i as int),
        decreases b.len() - i,
    {
        out.push(b[i]);
        assert(a@ + b@.subrange(0, i + 1) =~= (a@ + b@.subrange(0, i as int)).push(b@[i as int]));
        i = i + 1;
    }
    assert(b@.subrange(0, b@.len() as int) =~= b@);
    out
}

/// Decodes one chunk of a text stream. Invalid parts become U+FFFD, an
/// encoding that breaks off is kept in `pending` for the next chunk, and
/// carriage returns become line feeds. Gives `None` where the chunk completes
/// no character.
pub fn direct_chunk_utf8(pending: &mut Vec<u8>, chunk: &[u8]) -> (r: Option<String>)
    ensures
        final(pending)@ == held(old(pending)@ + chunk@),
        final(pending)@.len() <= 3,
        match r {
            Some(text) => decoded(old(pending)@ + chunk@).len() > 0 && text@ == normalized(
                decoded(old(pending)@ + chunk@),
            ),
            None => decoded(old(pending)@ + chunk@).len() == 0,
        },
{
    let all = joined(pending.as_slice(), chunk);
    let (text, rest, _) = decode(all.as_slice());
    proof {
        held_is_short(all@);
    }
    *pending = tail_of(all.as_slice(), rest);
    if text.len() == 0 {
        return None;
    }
    Some(normalize(text.as_slice()))
}

/// Decodes one chunk of a text stream that must be valid throughout. An
/// encoding that breaks off is kept in `pending` for the next chunk, and
/// carriage returns become line feeds. `Ok(None)` means that the chunk
/// completes no character, `Err` that an invalid part was met.
pub fn ensemble_chunk_utf8(pending: &mut Vec<u8>, chunk: &[u8]) -> (r: Result<Option<String>, ()>)
    ensures
        r is Err <==> !clean(old(pending)@ + chunk@),
        r is Err ==> final(pending)@ == if old(pending)@.len() == 0 {
            seq![]
        } else {
            old(pending)@ + chunk@
        },
        r is Ok ==> final(pending)@ == held(old(pending)@ + chunk@) && final(pending)@.len() <= 3,
        match r {
            Ok(Some(text)) => text@ == normalized(decoded(old(pending)@ + chunk@)) && (decoded(
                old(pending)@ + chunk@,
            ).len() > 0 || held(old(pending)@ + chunk@).len() == 0),
            Ok(None) => decoded(old(pending)@ + chunk@).len() == 0 && held(
                old(pending)@ + chunk@,
            ).len() > 0,
            Err(_) => true,
        },
{
    let all = joined(pending.as_slice(), chunk);
    let (text, rest, ok) = decode(all.as_slice());
    proof {
        held_is_short(all@);
    }
    if !ok {
        if pending.len() > 0 {
            *pending = all;
        } else {
            assert(pending@ =~= seq![]);
        }
        return Err(());
    }
    *pending = tail_of(all.as_slice(), rest);
    if text.len() == 0 && pending.len() > 0 {
        return Ok(None);
    }
    Ok(Some(normalize(text.as_slice())))
}

/// At most three bytes are ever held back.
pub proof fn held_is_short(s: Seq<u8>)
    ensures
        held(s).len() <= 3,
    decreases s.len(),
{
    if s.len() > 0 {
        match front(s) {
            Front::Whole(w) => held_is_short(s.subrange(w, s.len() as int)),
            Front::Invalid(w) => held_is_short(s.subrange(w, s.len() as int)),
            Front::Broken => {},
        }
    }
}

/// The text that is handed on holds no carriage return.
pub proof fn normalized_has_no_carriage_return(t: Seq<char>, i: int)
    requires
        0 <= i < normalized(t).len(),
    ensures
        normalized(t)[i] != '\r',
    decreases t.len(),
{
    let step: int = if t[0] == '\r' && t.len() > 1 && t[1] == '\n' {
        2
    } else {
        1
    };
    if i > 0 {
        normalized_has_no_carriage_return(t.subrange(step, t.len() as int), i - 1);
    }
}

/// Where the chunks are cut makes no difference: decoding `a` and then, with
/// what was held back, `b` gives the text of `a` and `b` together, holds back
/// the same bytes, and meets an invalid part in the same streams.
pub proof fn cutting_makes_no_difference(a: Seq<u8>, b: Seq<u8>)
    ensures
        decoded(a + b) == decoded(a) + decoded(held(a) + b),
        held(a + b) == held(held(a) + b),
        clean(a + b) == (clean(a) && clean(held(a) + b)),
    decreases a.len(),
{
    if a.len() == 0 {
        assert(a + b =~= b);
        assert(held(a) + b =~= b);
        assert(decoded(a) + decoded(held(a) + b) =~= decoded(b));
    } else {
        let n = a.len() as int;
        match front(a) {
            Front::Broken => {
                assert(decoded(a) + decoded(held(a) + b) =~= decoded(a + b));
            },
            Front::Whole(w) => {
                let t = a.subrange(w, n);
                assert(front(a + b) == Front::Whole(w));
                assert(scalar(a + b) == scalar(a));
                assert((a + b).subrange(w, n + b.len()) =~= t + b);
                cutting_makes_no_difference(t, b);
                assert(decoded(a + b) =~= decoded(a) + decoded(held(a) + b));
            },
            Front::Invalid(w) => {
                let t = a.subrange(w, n);
                assert(front(a + b) == Front::Invalid(w));
                assert((a + b).subrange(w, n + b.len()) =~= t + b);
                cutting_makes_no_difference(t, b);
                assert(decoded(a + b) =~= decoded(a) + decoded(held(a) + b));
            },
        }
    }
}

/// The bytes of a stream, which arrive as `chunks`.
pub open spec fn all_bytes(chunks: Seq<Seq<u8>>) -> Seq<u8>
    decreases chunks.len(),
{
    if chunks.len() == 0 {
        seq![]
    } else {
        all_bytes(chunks.drop_last()) + chunks.last()
    }
}

/// What is held back after `chunks`.
pub open spec fn held_after(chunks: Seq<Seq<u8>>) -> Seq<u8>
    decreases chunks.len(),
{
    if chunks.len() == 0 {
        seq![]
    } else {
        held(held_after(chunks.drop_last()) + chunks.last())
    }
}

/// The text that `chunks` give when they are decoded one after the other.
pub open spec fn text_of_chunks(chunks: Seq<Seq<u8>>) -> Seq<char>
    decreases chunks.len(),
{
    if chunks.len() == 0 {
        seq![]
    } else {
        text_of_chunks(chunks.drop_last()) + decoded(
            held_after(chunks.drop_last()) + chunks.last(),
        )
    }
}

/// A stream that is decoded chunk by chunk gives the text of its bytes, however
/// it was cut.
pub proof fn stream_text_is_the_text_of_its_bytes(chunks: Seq<Seq<u8>>)
    ensures
        text_of_chunks(chunks) == decoded(all_bytes(chunks)),
        held_after(chunks) == held(all_bytes(chunks)),
    decreases chunks.len(),
{
    if chunks.len() > 0 {
        stream_text_is_the_text_of_its_bytes(chunks.drop_last());
        cutting_makes_no_difference(all_bytes(chunks.drop_last()), chunks.last());
    }
}

proof fn codepoint_in_numbers(s: Seq<u8>)
    requires
        valid_leading_and_continuation_bytes_first_codepoint(s),
    ensures
        decode_first_codepoint(s) == if s[0] <= 0x7f {
            s[0] as int
        } else if s[0] <= 0xdf {
            (s[0] - 0xc0) * 0x40 + (s[1] - 0x80)
        } else if s[0] <= 0xef {
            (s[0] - 0xe0) * 0x1000 + (s[1] - 0x80) * 0x40 + (s[2] - 0x80)
        } else {
            (s[0] - 0xf0) * 0x40000 + (s[1] - 0x80) * 0x1000 + (s[2] - 0x80) * 0x40 + (s[3] - 0x80)
        },
{
    let b0 = s[0];
    if is_leading_byte_width_1(b0) {
        assert(b0 <= 0x7f ==> (b0 & 0x7f) as u32 == b0) by (bit_vector);
    } else if is_leading_byte_width_2(b0) {
        let b1 = s[1];
        assert(0xc0 <= b0 <= 0xdf && 0x80 <= b1 <= 0xbf ==> (((b0 & 0x1f) as u32) << 6u32)
            | ((b1 & 0x3f) as u32) == (b0 - 0xc0) * 0x40 + (b1 - 0x80)) by (bit_vector);
    } else if is_leading_byte_width_3(b0) {
        let b1 = s[1];
        let b2 = s[2];
        assert(0xe0 <= b0 <= 0xef && 0x80 <= b1 <= 0xbf && 0x80 <= b2 <= 0xbf ==> (((b0
            & 0x0f) as u32) << 12u32) | (((b1 & 0x3f) as u32) << 6u32) | ((b2 & 0x3f) as u32) == (b0
            - 0xe0) * 0x1000 + (b1 - 0x80) * 0x40 + (b2 - 0x80)) by (bit_vector);
    } else {
        let b1 = s[1];
        let b2 = s[2];
        let b3 = s[3];
        assert(0xf0 <= b0 <= 0xf7 && 0x80 <= b1 <= 0xbf && 0x80 <= b2 <= 0xbf && 0x80 <= b3
            <= 0xbf ==> (((b0 & 0x07) as u32) << 18u32) | (((b1 & 0x3f) as u32) << 12u32) | (((b2
            & 0x3f) as u32) << 6u32) | ((b3 & 0x3f) as u32) == (b0 - 0xf0) * 0x40000 + (b1 - 0x80)
            * 0x1000 + (b2 - 0x80) * 0x40 + (b3 - 0x80)) by (bit_vector);
    }
}

proof fn front_of_valid(s: Seq<u8>)
    requires
        s.len() > 0,
        valid_first_scalar(s),
    ensures
        front(s) == Front::Whole(length_of_first_scalar(s)),
        scalar(s) == decode_first_scalar(s),
{
    codepoint_in_numbers(s);
}

proof fn whole_is_valid(s: Seq<u8>)
    requires
        s.len() > 0,
        front(s) is Whole,
    ensures
        valid_first_scalar(s),
        front(s) == Front::Whole(length_of_first_scalar(s)),
        scalar(s) == decode_first_scalar(s),
{
    codepoint_in_numbers(s);
}

/// Bytes that are valid UTF-8 decode to the text that they encode, and nothing
/// of them is invalid or held back.
pub proof fn valid_text_comes_through(s: Seq<u8>)
    requires
        valid_utf8(s),
    ensures
        decoded(s) == decode_utf8(s),
        held(s).len() == 0,
        clean(s),
    decreases s.len(),
{
    if s.len() > 0 {
        front_of_valid(s);
        valid_text_comes_through(pop_first_scalar(s));
    }
}

/// What stands before the first carriage return is handed on as it is. So a text
/// without a carriage return is not changed: its line feeds stay, also those that
/// follow each other.
pub proof fn plain_text_stays(plain: Seq<char>, rest: Seq<char>)
    requires
        !plain.contains('\r'),
    ensures
        normalized(plain + rest) == plain + normalized(rest),
        normalized(plain) == plain,
    decreases plain.len(),
{
    let all = plain + rest;
    if plain.len() == 0 {
        assert(all =~= rest);
        assert(plain + normalized(rest) =~= normalized(rest));
    } else {
        let tail = plain.subrange(1, plain.len() as int);
        assert(plain.contains(plain[0]));
        assert forall|c: char| tail.contains(c) implies plain.contains(c) by {
            let i = choose|i: int| 0 <= i < tail.len() && tail[i] == c;
            assert(plain[i + 1] == c);
        }
        plain_text_stays(tail, rest);
        assert(all.subrange(1, all.len() as int) =~= tail + rest);
        assert(normalized(all) =~= plain + normalized(rest));
        assert(normalized(plain) =~= plain);
    }
}

/// A carriage return with a line feed behind it becomes one line feed, and so
/// does a carriage return without one; what stands before it and what stands
/// behind it are changed as if they stood alone.
pub proof fn line_ends_become_line_feeds(before: Seq<char>, behind: Seq<char>)
    ensures
        normalized(before + seq!['\r', '\n'] + behind) == normalized(before) + seq!['\n']
            + normalized(behind),
        (behind.len() == 0 || behind[0] != '\n') ==> normalized(before + seq!['\r'] + behind)
            == normalized(before) + seq!['\n'] + normalized(behind),
    decreases before.len(),
{
    let pair = before + seq!['\r', '\n'] + behind;
    let single = before + seq!['\r'] + behind;
    if before.len() == 0 {
        assert(pair.subrange(2, pair.len() as int) =~= behind);
        assert(single.subrange(1, single.len() as int) =~= behind);
        assert(normalized(pair) =~= normalized(before) + seq!['\n'] + normalized(behind));
        if behind.len() == 0 || behind[0] != '\n' {
            assert(single.len() > 1 ==> single[1] == behind[0]);
            assert(normalized(single) =~= normalized(before) + seq!['\n'] + normalized(behind));
        }
    } else {
        let step: int = if before[0] == '\r' && before.len() > 1 && before[1] == '\n' {
            2
        } else {
            1
        };
        let tail = before.subrange(step, before.len() as int);
        line_ends_become_line_feeds(tail, behind);
        assert(before.len() == 1 ==> pair[1] == '\r' && single[1] == '\r');
        assert(before.len() > 1 ==> pair[1] == before[1] && single[1] == before[1]);
        assert(pair.subrange(step, pair.len() as int) =~= tail + seq!['\r', '\n'] + behind);
        assert(single.subrange(step, single.len() as int) =~= tail + seq!['\r'] + behind);
        assert(normalized(pair) =~= normalized(before) + seq!['\n'] + normalized(behind));
        if behind.len() == 0 || behind[0] != '\n' {
            assert(normalized(single) =~= normalized(before) + seq!['\n'] + normalized(behind));
        }
    }
}

/// Behind valid text, a byte with which no encoding begins becomes one U+FFFD, and
/// so does the first byte of a longer encoding that no other byte of one follows;
/// what stands behind it is decoded as if it stood alone.
pub proof fn stray_bytes_are_replaced(valid: Seq<u8>, stray: u8, rest: Seq<u8>)
    requires
        valid_utf8(valid),
        (0x80 <= stray < 0xc2 || stray > 0xf4) || (stray >= 0xc2 && rest.len() > 0 && (rest[0]
            < 0x80 || rest[0] >= 0xc0)),
    ensures
        decoded(valid + seq![stray] + rest) == decode_utf8(valid) + seq!['\u{FFFD}'] + decoded(
            rest,
        ),
        held(valid + seq![stray] + rest) == held(rest),
        !clean(valid + seq![stray] + rest),
{
    let tail = seq![stray] + rest;
    valid_text_comes_through(valid);
    cutting_makes_no_difference(valid, tail);
    assert(valid + seq![stray] + rest =~= valid + tail);
    assert(held(valid) + tail =~= tail);
    assert(tail.subrange(1, tail.len() as int) =~= rest);
    assert(rest.len() > 0 ==> tail[1] == rest[0]);
    assert(front(tail) == Front::Invalid(1));
    assert(decode_utf8(valid) + (seq!['\u{FFFD}'] + decoded(rest)) =~= decode_utf8(valid) + seq![
        '\u{FFFD}',
    ] + decoded(rest));
}

/// Behind valid text, a character of which only the first bytes have come gives
/// no text yet: exactly those bytes are held back.
pub proof fn broken_off_characters_are_held(valid: Seq<u8>, next: Seq<u8>, k: int)
    requires
        valid_utf8(valid),
        next.len() > 0,
        valid_first_scalar(next),
        0 < k < length_of_first_scalar(next),
    ensures
        held(valid + next.take(k)) == next.take(k),
        decoded(valid + next.take(k)) == decode_utf8(valid),
        clean(valid + next.take(k)),
{
    let part = next.take(k);
    front_of_valid(next);
    valid_text_comes_through(valid);
    cutting_makes_no_difference(valid, part);
    assert(held(valid) + part =~= part);
    assert(good_prefix(part) == k);
    assert(front(part) == Front::Broken);
    assert(decode_utf8(valid) + decoded(part) =~= decode_utf8(valid));
}

/// Where nothing invalid is found, what is not held back is valid UTF-8, and its
/// text is handed on: no overlong encoding, surrogate or number above the largest
/// character passes for a character.
pub proof fn only_valid_text_is_clean(s: Seq<u8>)
    requires
        clean(s),
    ensures
        held(s).len() <= s.len(),
        valid_utf8(s.take(s.len() - held(s).len())),
        decoded(s) == decode_utf8(s.take(s.len() - held(s).len())),
    decreases s.len(),
{
    if s.len() > 0 && front(s) is Whole {
        let w = front(s)->Whole_0;
        let rest = s.subrange(w, s.len() as int);
        whole_is_valid(s);
        only_valid_text_is_clean(rest);
        let n = s.len() - held(s).len();
        let kept = s.take(n);
        assert(valid_leading_and_continuation_bytes_first_codepoint(kept));
        assert(decode_first_codepoint(kept) == decode_first_codepoint(s));
        assert(valid_first_scalar(kept));
        assert(pop_first_scalar(kept) =~= rest.take(rest.len() - held(rest).len()));
    } else {
        let none = s.take(s.len() - held(s).len());
        assert(none.len() == 0);
    }
}

/// Behind valid text, a character that is broken off by a byte that cannot
/// continue it becomes one U+FFFD, however many of its bytes have come; what
/// stands behind is decoded as if it stood alone.
pub proof fn interrupted_characters_are_replaced(
    valid: Seq<u8>,
    next: Seq<u8>,
    k: int,
    rest: Seq<u8>,
)
    requires
        valid_utf8(valid),
        next.len() > 0,
        valid_first_scalar(next),
        0 < k < length_of_first_scalar(next),
        rest.len() > 0,
        rest[0] < 0x80 || rest[0] >= 0xc0,
    ensures
        decoded(valid + next.take(k) + rest) == decode_utf8(valid) + seq!['\u{FFFD}'] + decoded(
            rest,
        ),
        !clean(valid + next.take(k) + rest),
{
    let tail = next.take(k) + rest;
    front_of_valid(next);
    valid_text_comes_through(valid);
    cutting_makes_no_difference(valid, tail);
    assert(valid + next.take(k) + rest =~= valid + tail);
    assert(held(valid) + tail =~= tail);
    assert(tail[k] == rest[0]);
    assert(good_prefix(tail) == k);
    assert(front(tail) == Front::Invalid(k));
    assert(tail.subrange(k, tail.len() as int) =~= rest);
    assert(decode_utf8(valid) + (seq!['\u{FFFD}'] + decoded(rest)) =~= decode_utf8(valid) + seq![
        '\u{FFFD}',
    ] + decoded(rest));
}

/// Behind valid text, the first byte of an overlong encoding, of a surrogate or of
/// a number above the largest character becomes one U+FFFD; what stands behind it
/// is decoded as if it stood alone.
pub proof fn impossible_characters_are_replaced(
    valid: Seq<u8>,
    lead: u8,
    second: u8,
    rest: Seq<u8>,
)
    requires
        valid_utf8(valid),
        (lead == 0xe0 && 0x80 <= second < 0xa0) || (lead == 0xed && 0xa0 <= second <= 0xbf) || (lead
            == 0xf0 && 0x80 <= second < 0x90) || (lead == 0xf4 && 0x90 <= second <= 0xbf),
    ensures
        decoded(valid + seq![lead, second] + rest) == decode_utf8(valid) + seq!['\u{FFFD}']
            + decoded(seq![second] + rest),
        !clean(valid + seq![lead, second] + rest),
{
    let tail = seq![lead, second] + rest;
    valid_text_comes_through(valid);
    cutting_makes_no_difference(valid, tail);
    assert(valid + seq![lead, second] + rest =~= valid + tail);
    assert(held(valid) + tail =~= tail);
    assert(front(tail) == Front::Invalid(1));
    assert(tail.subrange(1, tail.len() as int) =~= seq![second] + rest);
    assert(decode_utf8(valid) + (seq!['\u{FFFD}'] + decoded(seq![second] + rest))
        =~= decode_utf8(valid) + seq!['\u{FFFD}'] + decoded(seq![second] + rest));
}

} // verus!
