//! What the bytes of a tensor mean: decoding them gives the elements back.

use crate::floats::{bfloat_of_single, double_of_single, half_of_double, widened_is_finite};
use crate::json::{JsonNumber, JsonV};
use crate::kserve::{
    as_unsigned, bfloat_of_number, double_bits, encoded, encoded_all, half_of_number, is_true,
    little_endian, signed_bytes, single_bits, unsigned_bytes, Refusal,
};
use crate::nearest::{
    bfloat_value, bfloats_are_nearest, double_value, doubles_of_integers_are_nearest, half_value,
    halves_are_nearest, integers_are_finite, is_as_good, single_value, singles_are_nearest,
    widening_keeps_the_value,
};
use vstd::prelude::*;
use vstd::utf8::{decode_utf8, encode_utf8, encode_utf8_decode_utf8};

verus! {

/// The number that `b` denotes, the lowest byte first.
pub open spec fn number_of(b: Seq<u8>) -> nat
    decreases b.len(),
{
    if b.len() == 0 {
        0
    } else {
        b[0] as nat + 256 * number_of(b.subrange(1, b.len() as int))
    }
}

/// How many numbers `n` bytes denote.
pub open spec fn numbers_in(n: nat) -> nat
    decreases n,
{
    if n == 0 {
        1
    } else {
        256 * numbers_in((n - 1) as nat)
    }
}

/// The signed number that `b` denotes in two's complement.
pub open spec fn signed_number_of(b: Seq<u8>) -> int {
    let u = number_of(b);
    if 2 * u >= numbers_in(b.len()) {
        u - numbers_in(b.len())
    } else {
        u as int
    }
}

/// The bytes of a number denote it, as far as they reach.
pub proof fn bytes_denote_the_number(u: nat, n: nat)
    ensures
        little_endian(u, n).len() == n,
        number_of(little_endian(u, n)) == u % numbers_in(n),
        numbers_in(n) > 0,
    decreases n,
{
    if n > 0 {
        let m = (n - 1) as nat;
        bytes_denote_the_number(u / 256, m);
        let b = little_endian(u, n);
        assert(b.subrange(1, n as int) =~= little_endian(u / 256, m));
        let k = numbers_in(m);
        assert(u % 256 + 256 * ((u / 256) % k) == u % (256 * k)) by (nonlinear_arith)
            requires
                k > 0,
        {
            vstd::arithmetic::div_mod::lemma_mod_breakdown(u as int, 256, k as int);
        }
    }
}

proof fn sizes()
    ensures
        numbers_in(1) == 0x100,
        numbers_in(2) == 0x1_0000,
        numbers_in(4) == 0x1_0000_0000,
        numbers_in(8) == 0x1_0000_0000_0000_0000,
{
    reveal_with_fuel(numbers_in, 9);
}

/// Which bytes each data type has, in terms of the number that an element is.
proof fn data_types(v: JsonV)
    ensures
        encoded("BOOL"@, v) == Ok::<Seq<u8>, Refusal>(
            seq![
                if is_true(v) {
                    1u8
                } else {
                    0u8
                },
            ],
        ),
        encoded("INT8"@, v) == signed_bytes(v, 1),
        encoded("INT16"@, v) == signed_bytes(v, 2),
        encoded("INT32"@, v) == signed_bytes(v, 4),
        encoded("INT64"@, v) == signed_bytes(v, 8),
        encoded("UINT8"@, v) == unsigned_bytes(v, 1),
        encoded("UINT16"@, v) == unsigned_bytes(v, 2),
        encoded("UINT32"@, v) == unsigned_bytes(v, 4),
        encoded("UINT64"@, v) == unsigned_bytes(v, 8),
        v matches JsonV::Number(n) ==> {
            &&& encoded("FP16"@, v) == Ok::<Seq<u8>, Refusal>(
                little_endian(half_of_number(n) as nat, 2),
            )
            &&& encoded("BF16"@, v) == Ok::<Seq<u8>, Refusal>(
                little_endian(bfloat_of_number(n) as nat, 2),
            )
            &&& encoded("FP32"@, v) == Ok::<Seq<u8>, Refusal>(
                little_endian(single_bits(n) as nat, 4),
            )
            &&& encoded("FP64"@, v) == Ok::<Seq<u8>, Refusal>(
                little_endian(double_bits(n) as nat, 8),
            )
        },
        !(v is Number) ==> {
            &&& encoded("FP16"@, v) == Err::<Seq<u8>, Refusal>(Refusal::NotNumber)
            &&& encoded("BF16"@, v) == Err::<Seq<u8>, Refusal>(Refusal::NotNumber)
            &&& encoded("FP32"@, v) == Err::<Seq<u8>, Refusal>(Refusal::NotNumber)
            &&& encoded("FP64"@, v) == Err::<Seq<u8>, Refusal>(Refusal::NotNumber)
        },
        match v {
            JsonV::Text(s) => encoded("BYTES"@, v) == Ok::<Seq<u8>, Refusal>(
                little_endian((encode_utf8(s).len() % 0x1_0000_0000) as nat, 4) + encode_utf8(s),
            ),
            _ => encoded("BYTES"@, v) == Err::<Seq<u8>, Refusal>(Refusal::NotString),
        },
{
    reveal_strlit("BOOL");
    reveal_strlit("INT8");
    reveal_strlit("INT16");
    reveal_strlit("INT32");
    reveal_strlit("INT64");
    reveal_strlit("UINT8");
    reveal_strlit("UINT16");
    reveal_strlit("UINT32");
    reveal_strlit("UINT64");
    reveal_strlit("FP16");
    reveal_strlit("FP32");
    reveal_strlit("FP64");
    reveal_strlit("BF16");
    reveal_strlit("BYTES");
    assert("BOOL"@.len() == 4 && "BOOL"@[0] == 'B' && "BOOL"@[1] == 'O');
    assert("INT8"@.len() == 4 && "INT8"@[0] == 'I');
    assert("INT16"@.len() == 5 && "INT16"@[0] == 'I' && "INT16"@[3] == '1');
    assert("INT32"@.len() == 5 && "INT32"@[0] == 'I' && "INT32"@[3] == '3');
    assert("INT64"@.len() == 5 && "INT64"@[0] == 'I' && "INT64"@[3] == '6');
    assert("UINT8"@.len() == 5 && "UINT8"@[0] == 'U');
    assert("UINT16"@.len() == 6 && "UINT16"@[4] == '1');
    assert("UINT32"@.len() == 6 && "UINT32"@[4] == '3');
    assert("UINT64"@.len() == 6 && "UINT64"@[4] == '6');
    assert("FP16"@.len() == 4 && "FP16"@[0] == 'F' && "FP16"@[2] == '1');
    assert("FP32"@.len() == 4 && "FP32"@[0] == 'F' && "FP32"@[2] == '3');
    assert("FP64"@.len() == 4 && "FP64"@[0] == 'F' && "FP64"@[2] == '6');
    assert("BF16"@.len() == 4 && "BF16"@[0] == 'B' && "BF16"@[1] == 'F');
    assert("BYTES"@.len() == 5 && "BYTES"@[0] == 'B');
}

/// A truth value is one byte: 1 for true and 0 for false. A number counts as true
/// where it is not 0, and everything else as false.
pub proof fn truth_is_one_and_falsehood_zero(v: JsonV)
    ensures
        encoded("BOOL"@, JsonV::Bool(true)) == Ok::<Seq<u8>, Refusal>(seq![1u8]),
        encoded("BOOL"@, JsonV::Bool(false)) == Ok::<Seq<u8>, Refusal>(seq![0u8]),
        v matches JsonV::Number(n) ==> encoded("BOOL"@, v) == Ok::<Seq<u8>, Refusal>(
            match n {
                JsonNumber::Unsigned(0) => seq![0u8],
                JsonNumber::Negative(0) => seq![0u8],
                JsonNumber::Float(0) => seq![0u8],
                JsonNumber::Float(0x8000_0000_0000_0000) => seq![0u8],
                _ => seq![1u8],
            },
        ),
        !(v is Bool) && !(v is Number) ==> encoded("BOOL"@, v) == Ok::<Seq<u8>, Refusal>(
            seq![0u8],
        ),
{
    data_types(v);
    data_types(JsonV::Bool(true));
    data_types(JsonV::Bool(false));
}

/// The integer that a JSON number is, where it is one.
pub open spec fn integer_of(n: JsonNumber) -> Option<int> {
    match n {
        JsonNumber::Unsigned(u) => Some(u as int),
        JsonNumber::Negative(i) => Some(i as int),
        JsonNumber::Float(_) => None,
    }
}

proof fn wraps_at_1(x: int)
    requires
        -0x8000_0000_0000_0000 <= x < 0x8000_0000_0000_0000,
    ensures
        ({
            let u = if x >= 0 {
                x
            } else {
                x + 0x1_0000_0000_0000_0000
            };
            let m = u % 0x100;
            let y = if 2 * m >= 0x100 {
                m - 0x100
            } else {
                m
            };
            &&& -0x100 <= 2 * x < 0x100 ==> y == x
            &&& (y - x) % 0x100 == 0
        }),
{
}

proof fn wraps_at_2(x: int)
    requires
        -0x8000_0000_0000_0000 <= x < 0x8000_0000_0000_0000,
    ensures
        ({
            let u = if x >= 0 {
                x
            } else {
                x + 0x1_0000_0000_0000_0000
            };
            let m = u % 0x1_0000;
            let y = if 2 * m >= 0x1_0000 {
                m - 0x1_0000
            } else {
                m
            };
            &&& -0x1_0000 <= 2 * x < 0x1_0000 ==> y == x
            &&& (y - x) % 0x1_0000 == 0
        }),
{
}

proof fn wraps_at_4(x: int)
    requires
        -0x8000_0000_0000_0000 <= x < 0x8000_0000_0000_0000,
    ensures
        ({
            let u = if x >= 0 {
                x
            } else {
                x + 0x1_0000_0000_0000_0000
            };
            let m = u % 0x1_0000_0000;
            let y = if 2 * m >= 0x1_0000_0000 {
                m - 0x1_0000_0000
            } else {
                m
            };
            &&& -0x1_0000_0000 <= 2 * x < 0x1_0000_0000 ==> y == x
            &&& (y - x) % 0x1_0000_0000 == 0
        }),
{
}

proof fn wraps_at_8(x: int)
    requires
        -0x8000_0000_0000_0000 <= x < 0x8000_0000_0000_0000,
    ensures
        ({
            let u = if x >= 0 {
                x
            } else {
                x + 0x1_0000_0000_0000_0000
            };
            let m = u % 0x1_0000_0000_0000_0000;
            let y = if 2 * m >= 0x1_0000_0000_0000_0000 {
                m - 0x1_0000_0000_0000_0000
            } else {
                m
            };
            &&& -0x1_0000_0000_0000_0000 <= 2 * x < 0x1_0000_0000_0000_0000 ==> y == x
            &&& (y - x) % 0x1_0000_0000_0000_0000 == 0
        }),
{
}

proof fn signed_bytes_are(v: JsonV, n: nat, x: int)
    requires
        v matches JsonV::Number(m) && integer_of(m) == Some(x),
        x < 0x8000_0000_0000_0000,
    ensures
        x >= -0x8000_0000_0000_0000,
        signed_bytes(v, n) matches Ok(b) && b.len() == n && number_of(b) == (if x >= 0 {
            x
        } else {
            x + 0x1_0000_0000_0000_0000
        }) % (numbers_in(n) as int),
{
    bytes_denote_the_number(as_unsigned(x), n);
}

proof fn signed_bytes_denote(v: JsonV, n: nat, x: int)
    requires
        v matches JsonV::Number(m) && integer_of(m) == Some(x),
        x < 0x8000_0000_0000_0000,
        n == 1 || n == 2 || n == 4 || n == 8,
    ensures
        signed_bytes(v, n) matches Ok(b) && b.len() == n && {
            &&& -(numbers_in(n) as int) <= 2 * x < numbers_in(n) ==> signed_number_of(b) == x
            &&& (signed_number_of(b) - x) % (numbers_in(n) as int) == 0
        },
{
    signed_bytes_are(v, n, x);
    sizes();
    if n == 1 {
        wraps_at_1(x);
    } else if n == 2 {
        wraps_at_2(x);
    } else if n == 4 {
        wraps_at_4(x);
    } else {
        wraps_at_8(x);
    }
}

/// A signed integer that its data type can hold is denoted by its bytes, in two's
/// complement; of another one the lowest bytes are sent. What is no integer, or
/// one above the signed ones, is refused.
pub proof fn signed_integers_come_back(v: JsonV, x: int)
    requires
        v matches JsonV::Number(m) && integer_of(m) == Some(x),
        x < 0x8000_0000_0000_0000,
    ensures
        encoded("INT8"@, v) matches Ok(b) && b.len() == 1 && (-0x80 <= x < 0x80
            ==> signed_number_of(b) == x) && (signed_number_of(b) - x) % 0x100 == 0,
        encoded("INT16"@, v) matches Ok(b) && b.len() == 2 && (-0x8000 <= x < 0x8000
            ==> signed_number_of(b) == x) && (signed_number_of(b) - x) % 0x1_0000 == 0,
        encoded("INT32"@, v) matches Ok(b) && b.len() == 4 && (-0x8000_0000 <= x < 0x8000_0000
            ==> signed_number_of(b) == x) && (signed_number_of(b) - x) % 0x1_0000_0000 == 0,
        encoded("INT64"@, v) matches Ok(b) && b.len() == 8 && signed_number_of(b) == x,
{
    data_types(v);
    sizes();
    signed_bytes_denote(v, 1, x);
    signed_bytes_denote(v, 2, x);
    signed_bytes_denote(v, 4, x);
    signed_bytes_denote(v, 8, x);
}

/// An unsigned integer that its data type can hold is denoted by its bytes; of
/// another one the lowest bytes are sent.
pub proof fn unsigned_integers_come_back(u: u64)
    ensures
        ({
            let v = JsonV::Number(JsonNumber::Unsigned(u));
            &&& encoded("UINT8"@, v) matches Ok(b) && b.len() == 1 && number_of(b) == u % 0x100
            &&& encoded("UINT16"@, v) matches Ok(b) && b.len() == 2 && number_of(b) == u % 0x1_0000
            &&& encoded("UINT32"@, v) matches Ok(b) && b.len() == 4 && number_of(b) == u
                % 0x1_0000_0000
            &&& encoded("UINT64"@, v) matches Ok(b) && b.len() == 8 && number_of(b) == u
        }),
{
    data_types(JsonV::Number(JsonNumber::Unsigned(u)));
    sizes();
    bytes_denote_the_number(u as nat, 1);
    bytes_denote_the_number(u as nat, 2);
    bytes_denote_the_number(u as nat, 4);
    bytes_denote_the_number(u as nat, 8);
}

/// What a data type cannot hold is refused: the integer types take integers, the
/// floating-point types take numbers, and texts go as bytes.
pub proof fn other_kinds_are_refused(v: JsonV)
    ensures
        !(v is Number) || v->Number_0 is Float || (v->Number_0 matches JsonNumber::Unsigned(u) && u
            >= 0x8000_0000_0000_0000) ==> {
            &&& encoded("INT8"@, v) == Err::<Seq<u8>, Refusal>(Refusal::NotInteger)
            &&& encoded("INT16"@, v) == Err::<Seq<u8>, Refusal>(Refusal::NotInteger)
            &&& encoded("INT32"@, v) == Err::<Seq<u8>, Refusal>(Refusal::NotInteger)
            &&& encoded("INT64"@, v) == Err::<Seq<u8>, Refusal>(Refusal::NotInteger)
        },
        !(v is Number) || !(v->Number_0 is Unsigned) ==> {
            &&& encoded("UINT8"@, v) == Err::<Seq<u8>, Refusal>(Refusal::NotUnsigned)
            &&& encoded("UINT16"@, v) == Err::<Seq<u8>, Refusal>(Refusal::NotUnsigned)
            &&& encoded("UINT32"@, v) == Err::<Seq<u8>, Refusal>(Refusal::NotUnsigned)
            &&& encoded("UINT64"@, v) == Err::<Seq<u8>, Refusal>(Refusal::NotUnsigned)
        },
        !(v is Number) ==> {
            &&& encoded("FP16"@, v) == Err::<Seq<u8>, Refusal>(Refusal::NotNumber)
            &&& encoded("BF16"@, v) == Err::<Seq<u8>, Refusal>(Refusal::NotNumber)
            &&& encoded("FP32"@, v) == Err::<Seq<u8>, Refusal>(Refusal::NotNumber)
            &&& encoded("FP64"@, v) == Err::<Seq<u8>, Refusal>(Refusal::NotNumber)
        },
        !(v is Text) ==> encoded("BYTES"@, v) == Err::<Seq<u8>, Refusal>(Refusal::NotString),
{
    data_types(v);
}

/// A text goes as its length, in four bytes, and its bytes, which are its UTF-8
/// encoding.
pub proof fn texts_come_back(s: Seq<char>)
    requires
        encode_utf8(s).len() < 0x1_0000_0000,
    ensures
        encoded("BYTES"@, JsonV::Text(s)) matches Ok(b) && {
            &&& b.len() >= 4
            &&& number_of(b.subrange(0, 4)) == b.len() - 4
            &&& decode_utf8(b.subrange(4, b.len() as int)) == s
        },
{
    data_types(JsonV::Text(s));
    sizes();
    let n = encode_utf8(s).len();
    bytes_denote_the_number(n, 4);
    let b = little_endian(n, 4) + encode_utf8(s);
    assert(b.subrange(0, 4) =~= little_endian(n, 4));
    assert(b.subrange(4, b.len() as int) =~= encode_utf8(s));
    encode_utf8_decode_utf8(s);
}

/// The bits that the bytes of a number denote, by their format.
proof fn float_bytes(n: JsonNumber)
    ensures
        ({
            let v = JsonV::Number(n);
            &&& encoded("FP64"@, v) is Ok
            &&& encoded("FP64"@, v)->Ok_0.len() == 8
            &&& number_of(encoded("FP64"@, v)->Ok_0) == double_bits(n)
            &&& encoded("FP32"@, v) is Ok
            &&& encoded("FP32"@, v)->Ok_0.len() == 4
            &&& number_of(encoded("FP32"@, v)->Ok_0) == single_bits(n)
            &&& encoded("FP16"@, v) is Ok
            &&& encoded("FP16"@, v)->Ok_0.len() == 2
            &&& number_of(encoded("FP16"@, v)->Ok_0) == half_of_number(n)
            &&& encoded("BF16"@, v) is Ok
            &&& encoded("BF16"@, v)->Ok_0.len() == 2
            &&& number_of(encoded("BF16"@, v)->Ok_0) == bfloat_of_number(n)
        }),
{
    data_types(JsonV::Number(n));
    sizes();
    let d = double_bits(n);
    let s = single_bits(n);
    let h = half_of_number(n);
    let b = bfloat_of_number(n);
    bytes_denote_the_number(d as nat, 8);
    bytes_denote_the_number(s as nat, 4);
    bytes_denote_the_number(h as nat, 2);
    bytes_denote_the_number(b as nat, 2);
    vstd::arithmetic::div_mod::lemma_small_mod(d as nat, 0x1_0000_0000_0000_0000);
    vstd::arithmetic::div_mod::lemma_small_mod(s as nat, 0x1_0000_0000);
    vstd::arithmetic::div_mod::lemma_small_mod(h as nat, 0x1_0000);
    vstd::arithmetic::div_mod::lemma_small_mod(b as nat, 0x1_0000);
}

/// The bits of a number in double precision are kept, and in single precision the
/// bytes denote the nearest value.
pub proof fn floats_come_back_as_the_nearest(bits: u64, c: u32)
    requires
        bits % 0x8000_0000_0000_0000 < 0x7ff0_0000_0000_0000,
        c % 0x8000_0000 <= 0x7f80_0000,
    ensures
        ({
            let v = JsonV::Number(JsonNumber::Float(bits));
            let s = number_of(encoded("FP32"@, v)->Ok_0);
            &&& encoded("FP64"@, v) is Ok
            &&& encoded("FP64"@, v)->Ok_0.len() == 8
            &&& number_of(encoded("FP64"@, v)->Ok_0) == bits
            &&& encoded("FP32"@, v) is Ok
            &&& encoded("FP32"@, v)->Ok_0.len() == 4
            &&& s <= u32::MAX
            &&& is_as_good(s, single_value(s as u32), c as nat, single_value(c), double_value(bits))
        }),
{
    single_values(bits, c);
    float_bytes(JsonNumber::Float(bits));
}

proof fn single_values(bits: u64, c: u32)
    requires
        bits % 0x8000_0000_0000_0000 < 0x7ff0_0000_0000_0000,
        c % 0x8000_0000 <= 0x7f80_0000,
    ensures
        double_bits(JsonNumber::Float(bits)) == bits,
        ({
            let s = single_bits(JsonNumber::Float(bits));
            is_as_good(s as nat, single_value(s), c as nat, single_value(c), double_value(bits))
        }),
{
    singles_are_nearest(bits, c);
}

/// In the two short formats the bytes of a number denote the nearest value to the
/// number in single precision.
pub proof fn short_floats_come_back_as_the_nearest(n: JsonNumber, h: u16)
    requires
        number_of(encoded("FP32"@, JsonV::Number(n))->Ok_0) % 0x8000_0000 < 0x7f80_0000,
    ensures
        ({
            let v = JsonV::Number(n);
            let s = number_of(encoded("FP32"@, v)->Ok_0) as u32;
            let x = number_of(encoded("FP16"@, v)->Ok_0);
            let y = number_of(encoded("BF16"@, v)->Ok_0);
            &&& encoded("FP16"@, v) is Ok
            &&& encoded("FP16"@, v)->Ok_0.len() == 2
            &&& encoded("BF16"@, v) is Ok
            &&& encoded("BF16"@, v)->Ok_0.len() == 2
            &&& x <= u16::MAX
            &&& y <= u16::MAX
            &&& h % 0x8000 <= 0x7c00 ==> is_as_good(
                x,
                half_value(x as u16),
                h as nat,
                half_value(h),
                single_value(s),
            )
            &&& h % 0x8000 <= 0x7f80 ==> is_as_good(
                y,
                bfloat_value(y as u16),
                h as nat,
                bfloat_value(h),
                single_value(s),
            )
        }),
{
    float_bytes(n);
    short_values(single_bits(n), h);
    assert(half_of_number(n) == half_of_double(double_of_single(single_bits(n))));
    assert(bfloat_of_number(n) == bfloat_of_single(single_bits(n)));
}

proof fn short_values(s: u32, h: u16)
    requires
        s % 0x8000_0000 < 0x7f80_0000,
    ensures
        ({
            let x = half_of_double(double_of_single(s));
            let y = bfloat_of_single(s);
            &&& h % 0x8000 <= 0x7c00 ==> is_as_good(
                x as nat,
                half_value(x),
                h as nat,
                half_value(h),
                single_value(s),
            )
            &&& h % 0x8000 <= 0x7f80 ==> is_as_good(
                y as nat,
                bfloat_value(y),
                h as nat,
                bfloat_value(h),
                single_value(s),
            )
        }),
{
    widening_keeps_the_value(s);
    widened_is_finite(s);
    if h % 0x8000 <= 0x7c00 {
        halves_are_nearest(double_of_single(s), h);
    }
    if h % 0x8000 <= 0x7f80 {
        bfloats_are_nearest(s, h);
    }
}

/// An integer becomes the nearest value in double precision, and a negative one
/// has the same bits but for the sign.
pub proof fn integers_become_the_nearest_double(n: u64, c: u64)
    requires
        c % 0x8000_0000_0000_0000 <= 0x7ff0_0000_0000_0000,
    ensures
        ({
            let d = number_of(encoded("FP64"@, JsonV::Number(JsonNumber::Unsigned(n)))->Ok_0);
            &&& d < 0x7ff0_0000_0000_0000
            &&& is_as_good(
                d,
                double_value(d as u64),
                c as nat,
                double_value(c),
                n * vstd::arithmetic::power2::pow2(1074),
            )
            &&& 0 < n <= 0x8000_0000_0000_0000 ==> number_of(
                encoded(
                    "FP64"@,
                    JsonV::Number(JsonNumber::Negative((-(n as int)) as i64)),
                )->Ok_0,
            ) == 0x8000_0000_0000_0000 + d
        }),
{
    float_bytes(JsonNumber::Unsigned(n));
    integer_values(n, c);
    if 0 < n <= 0x8000_0000_0000_0000 {
        float_bytes(JsonNumber::Negative((-(n as int)) as i64));
    }
}

proof fn integer_values(n: u64, c: u64)
    requires
        c % 0x8000_0000_0000_0000 <= 0x7ff0_0000_0000_0000,
    ensures
        ({
            let d = double_bits(JsonNumber::Unsigned(n));
            &&& d < 0x7ff0_0000_0000_0000
            &&& is_as_good(
                d as nat,
                double_value(d),
                c as nat,
                double_value(c),
                n * vstd::arithmetic::power2::pow2(1074),
            )
            &&& 0 < n <= 0x8000_0000_0000_0000 ==> double_bits(
                JsonNumber::Negative((-(n as int)) as i64),
            ) == 0x8000_0000_0000_0000 + d
        }),
{
    integers_are_finite(n);
    doubles_of_integers_are_nearest(n, c);
}

/// The bytes of two runs of elements follow each other, and a single element has
/// its own bytes.
pub proof fn elements_follow_each_other(datatype: Seq<char>, a: Seq<JsonV>, b: Seq<JsonV>, v: JsonV)
    ensures
        encoded_all(datatype, seq![v]) == encoded(datatype, v),
        encoded_all(datatype, Seq::empty()) == Ok::<Seq<u8>, Refusal>(Seq::empty()),
        encoded_all(datatype, a + b) == match encoded_all(datatype, a) {
            Err(e) => Err(e),
            Ok(x) => match encoded_all(datatype, b) {
                Err(e) => Err(e),
                Ok(y) => Ok(x + y),
            },
        },
    decreases b.len(),
{
    let one = seq![v];
    assert(one.drop_last() =~= Seq::empty());
    if let Ok(x) = encoded(datatype, v) {
        assert(Seq::<u8>::empty() + x =~= x);
    }
    if b.len() == 0 {
        assert(a + b =~= a);
        if let Ok(x) = encoded_all(datatype, a) {
            assert(x + Seq::<u8>::empty() =~= x);
        }
    } else {
        let front = b.drop_last();
        elements_follow_each_other(datatype, a, front, v);
        assert((a + b).drop_last() =~= a + front);
        assert((a + b).last() == b.last());
        if let Ok(x) = encoded_all(datatype, a) {
            if let Ok(y) = encoded_all(datatype, front) {
                if let Ok(z) = encoded(datatype, b.last()) {
                    assert((x + y) + z =~= x + (y + z));
                }
            }
        }
    }
}

} // verus!
