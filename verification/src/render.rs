//! Rendering identifiers as text: the native 26-character Crockford base-32
//! form and the 36-character hyphenated UUID form. Both encodings are stated
//! exactly, together with their decodings and round-trip laws.

use vstd::arithmetic::div_mod::lemma_div_denominator;
use vstd::arithmetic::div_mod::lemma_fundamental_div_mod;
use vstd::arithmetic::div_mod::lemma_multiply_divide_lt;
use vstd::arithmetic::div_mod::lemma_small_mod;
use vstd::prelude::*;

use crate::ident::ts_part;
use crate::ident::Identifier;

verus! {

/// `b` to the `k`-th power.
pub open spec fn pow_base(b: int, k: int) -> int
    decreases k,
{
    if k <= 0 {
        1
    } else {
        b * pow_base(b, k - 1)
    }
}

/// Digit `j` (counting from the least significant, zero-based) of `v`
/// written in base `b`.
pub open spec fn base_digit(v: int, j: int, b: int) -> int {
    (v / pow_base(b, j)) % b
}

/// The Crockford base-32 digit character of value `d`: the digits and the
/// uppercase letters, leaving out I, L, O and U.
pub open spec fn crockford_digit(d: int) -> char {
    if d == 0 {
        '0'
    } else if d == 1 {
        '1'
    } else if d == 2 {
        '2'
    } else if d == 3 {
        '3'
    } else if d == 4 {
        '4'
    } else if d == 5 {
        '5'
    } else if d == 6 {
        '6'
    } else if d == 7 {
        '7'
    } else if d == 8 {
        '8'
    } else if d == 9 {
        '9'
    } else if d == 10 {
        'A'
    } else if d == 11 {
        'B'
    } else if d == 12 {
        'C'
    } else if d == 13 {
        'D'
    } else if d == 14 {
        'E'
    } else if d == 15 {
        'F'
    } else if d == 16 {
        'G'
    } else if d == 17 {
        'H'
    } else if d == 18 {
        'J'
    } else if d == 19 {
        'K'
    } else if d == 20 {
        'M'
    } else if d == 21 {
        'N'
    } else if d == 22 {
        'P'
    } else if d == 23 {
        'Q'
    } else if d == 24 {
        'R'
    } else if d == 25 {
        'S'
    } else if d == 26 {
        'T'
    } else if d == 27 {
        'V'
    } else if d == 28 {
        'W'
    } else if d == 29 {
        'X'
    } else if d == 30 {
        'Y'
    } else if d == 31 {
        'Z'
    } else {
        ' '
    }
}

/// The value of a Crockford base-32 digit character, `-1` for any other
/// character.
pub open spec fn crockford_val(c: char) -> int {
    if c == '0' {
        0
    } else if c == '1' {
        1
    } else if c == '2' {
        2
    } else if c == '3' {
        3
    } else if c == '4' {
        4
    } else if c == '5' {
        5
    } else if c == '6' {
        6
    } else if c == '7' {
        7
    } else if c == '8' {
        8
    } else if c == '9' {
        9
    } else if c == 'A' {
        10
    } else if c == 'B' {
        11
    } else if c == 'C' {
        12
    } else if c == 'D' {
        13
    } else if c == 'E' {
        14
    } else if c == 'F' {
        15
    } else if c == 'G' {
        16
    } else if c == 'H' {
        17
    } else if c == 'J' {
        18
    } else if c == 'K' {
        19
    } else if c == 'M' {
        20
    } else if c == 'N' {
        21
    } else if c == 'P' {
        22
    } else if c == 'Q' {
        23
    } else if c == 'R' {
        24
    } else if c == 'S' {
        25
    } else if c == 'T' {
        26
    } else if c == 'V' {
        27
    } else if c == 'W' {
        28
    } else if c == 'X' {
        29
    } else if c == 'Y' {
        30
    } else if c == 'Z' {
        31
    } else {
        -1
    }
}

/// The lowercase hex digit character of value `d`.
pub open spec fn hex_digit(d: int) -> char {
    if d == 0 {
        '0'
    } else if d == 1 {
        '1'
    } else if d == 2 {
        '2'
    } else if d == 3 {
        '3'
    } else if d == 4 {
        '4'
    } else if d == 5 {
        '5'
    } else if d == 6 {
        '6'
    } else if d == 7 {
        '7'
    } else if d == 8 {
        '8'
    } else if d == 9 {
        '9'
    } else if d == 10 {
        'a'
    } else if d == 11 {
        'b'
    } else if d == 12 {
        'c'
    } else if d == 13 {
        'd'
    } else if d == 14 {
        'e'
    } else if d == 15 {
        'f'
    } else {
        ' '
    }
}

/// The value of a lowercase hex digit character, `-1` for any other.
pub open spec fn hex_val(c: char) -> int {
    if c == '0' {
        0
    } else if c == '1' {
        1
    } else if c == '2' {
        2
    } else if c == '3' {
        3
    } else if c == '4' {
        4
    } else if c == '5' {
        5
    } else if c == '6' {
        6
    } else if c == '7' {
        7
    } else if c == '8' {
        8
    } else if c == '9' {
        9
    } else if c == 'a' {
        10
    } else if c == 'b' {
        11
    } else if c == 'c' {
        12
    } else if c == 'd' {
        13
    } else if c == 'e' {
        14
    } else if c == 'f' {
        15
    } else {
        -1
    }
}

/// The native text of identifier value `v`: 26 Crockford base-32 characters,
/// most significant digit first, the 48-bit timestamp in the leading 10.
/// Lexicographic order on these texts is the order of the values.
pub open spec fn ulid_render(v: u128) -> Seq<char> {
    Seq::new(26, |i: int| crockford_digit(base_digit(v as int, 25 - i, 32)))
}

/// Where hex digit `j` of 32 (most significant first) stands in the
/// 36-character UUID text, stepping over the four hyphens.
pub open spec fn uuid_digit_pos(j: int) -> int {
    if j < 8 {
        j
    } else if j < 12 {
        j + 1
    } else if j < 16 {
        j + 2
    } else if j < 20 {
        j + 3
    } else {
        j + 4
    }
}

/// Which hex digit (most significant first) stands at position `i` of the
/// UUID text; meaningful only off the hyphen positions.
pub open spec fn uuid_digit_index(i: int) -> int {
    if i < 8 {
        i
    } else if i < 13 {
        i - 1
    } else if i < 18 {
        i - 2
    } else if i < 23 {
        i - 3
    } else {
        i - 4
    }
}

/// The UUID text of identifier value `v`: 32 lowercase hex digits with
/// hyphens after bytes 4, 6, 8 and 10 — the 128 bits re-read as a UUID,
/// with no version or variant bits injected.
pub open spec fn uuid_render(v: u128) -> Seq<char> {
    Seq::new(
        36,
        |i: int|
            if i == 8 || i == 13 || i == 18 || i == 23 {
                '-'
            } else {
                hex_digit(base_digit(v as int, 31 - uuid_digit_index(i), 16))
            },
    )
}

/// What `render` returns for value `v`.
pub open spec fn render_spec(v: u128, as_uuid: bool) -> Seq<char> {
    if as_uuid {
        uuid_render(v)
    } else {
        ulid_render(v)
    }
}

/// Relies on rusty_ulid::Ulid::to_string: the 26-character big-endian
/// Crockford base-32 text of the 128-bit value.
#[verifier::external_body]
fn ulid_text(v: u128) -> (r: String)
    ensures
        r@ == ulid_render(v),
{
    rusty_ulid::Ulid::from(v).to_string()
}

/// Relies on uuid::Uuid: `from_u128` reads the value as the UUID's sixteen
/// bytes, big-endian, and `to_string` (its Display impl) renders them as
/// lowercase hyphenated hex.
#[verifier::external_body]
fn uuid_text(v: u128) -> (r: String)
    ensures
        r@ == uuid_render(v),
{
    uuid::Uuid::from_u128(v).to_string()
}

/// Renders `id` in its native form, or as a UUID when `as_uuid` is set.
/// Rendering is total: every 128-bit value has both texts.
pub fn render(id: Identifier, as_uuid: bool) -> (r: String)
    ensures
        r@ == render_spec(id.value, as_uuid),
{
    if as_uuid {
        uuid_text(id.value)
    } else {
        ulid_text(id.value)
    }
}

/// The value read from the first `k` characters of a native-form text.
pub open spec fn ulid_decode_prefix(s: Seq<char>, k: int) -> int
    decreases k,
{
    if k <= 0 {
        0
    } else {
        ulid_decode_prefix(s, k - 1) * 32 + crockford_val(s[k - 1])
    }
}

/// What a native-form text decodes to: the value of 26 Crockford digits
/// whose leading digit keeps the value inside 128 bits, or nothing.
pub open spec fn ulid_decode(s: Seq<char>) -> Option<u128> {
    if s.len() == 26 && (forall|i: int| 0 <= i < 26 ==> crockford_val(#[trigger] s[i]) >= 0)
        && crockford_val(s[0]) < 8 {
        Some(ulid_decode_prefix(s, 26) as u128)
    } else {
        None
    }
}

/// The value read from the first `k` hex digits of a UUID text.
pub open spec fn uuid_decode_prefix(s: Seq<char>, k: int) -> int
    decreases k,
{
    if k <= 0 {
        0
    } else {
        uuid_decode_prefix(s, k - 1) * 16 + hex_val(s[uuid_digit_pos(k - 1)])
    }
}

/// What a UUID text decodes to: the value of 32 hex digits around hyphens at
/// the four fixed places, or nothing.
pub open spec fn uuid_decode(s: Seq<char>) -> Option<u128> {
    if s.len() == 36 && s[8] == '-' && s[13] == '-' && s[18] == '-' && s[23] == '-' && (forall|
        j: int,
    |
        0 <= j < 32 ==> hex_val(s[#[trigger] uuid_digit_pos(j)]) >= 0) {
        Some(uuid_decode_prefix(s, 32) as u128)
    } else {
        None
    }
}

proof fn lemma_pow_base_pos(b: int, k: int)
    requires
        b > 0,
        k >= 0,
    ensures
        pow_base(b, k) > 0,
    decreases k,
{
    if k > 0 {
        lemma_pow_base_pos(b, k - 1);
        vstd::arithmetic::mul::lemma_mul_strictly_positive(b, pow_base(b, k - 1));
    }
}

proof fn lemma_crockford_val_inverse()
    ensures
        forall|d: int| 0 <= d < 32 ==> crockford_val(#[trigger] crockford_digit(d)) == d,
{
}

proof fn lemma_hex_val_inverse()
    ensures
        forall|d: int| 0 <= d < 16 ==> hex_val(#[trigger] hex_digit(d)) == d,
{
}

proof fn lemma_ulid_decode_prefix(v: u128, k: int)
    requires
        0 <= k <= 26,
    ensures
        ulid_decode_prefix(ulid_render(v), k) == v as int / pow_base(32, 26 - k),
    decreases k,
{
    let s = ulid_render(v);
    if k == 0 {
        assert(pow_base(32, 26) == 0x4_0000_0000_0000_0000_0000_0000_0000_0000) by {
            reveal_with_fuel(pow_base, 27);
        }
        lemma_pow_base_pos(32, 26);
        lemma_multiply_divide_lt(v as int, pow_base(32, 26), 1);
        assert(v as int / pow_base(32, 26) == 0);
    } else {
        lemma_ulid_decode_prefix(v, k - 1);
        let e = 26 - k;
        lemma_pow_base_pos(32, e);
        let x = v as int / pow_base(32, e);
        lemma_crockford_val_inverse();
        assert(s[k - 1] == crockford_digit(base_digit(v as int, e, 32)));
        assert(crockford_val(s[k - 1]) == x % 32);
        assert(pow_base(32, e + 1) == 32 * pow_base(32, e));
        lemma_div_denominator(v as int, pow_base(32, e), 32);
        lemma_fundamental_div_mod(x, 32);
        assert(ulid_decode_prefix(s, k) == (x / 32) * 32 + x % 32);
    }
}

/// Law: the native text of any identifier value decodes back to that same
/// value.
pub proof fn lemma_ulid_round_trip(v: u128)
    ensures
        ulid_decode(ulid_render(v)) == Some(v),
{
    let s = ulid_render(v);
    lemma_crockford_val_inverse();
    assert forall|i: int| 0 <= i < 26 implies crockford_val(#[trigger] s[i]) >= 0 by {
        lemma_pow_base_pos(32, 25 - i);
    }
    assert(crockford_val(s[0]) < 8) by {
        lemma_pow_base_pos(32, 25);
        assert(pow_base(32, 25) == 0x2000_0000_0000_0000_0000_0000_0000_0000) by {
            reveal_with_fuel(pow_base, 26);
        }
        lemma_multiply_divide_lt(v as int, pow_base(32, 25), 8);
        lemma_small_mod((v as int / pow_base(32, 25)) as nat, 32);
    }
    lemma_ulid_decode_prefix(v, 26);
    assert(ulid_decode_prefix(s, 26) == v as int / pow_base(32, 0));
}

proof fn lemma_uuid_decode_prefix(v: u128, k: int)
    requires
        0 <= k <= 32,
    ensures
        uuid_decode_prefix(uuid_render(v), k) == v as int / pow_base(16, 32 - k),
    decreases k,
{
    let s = uuid_render(v);
    if k == 0 {
        assert(pow_base(16, 32) == 0x1_0000_0000_0000_0000_0000_0000_0000_0000) by {
            reveal_with_fuel(pow_base, 33);
        }
        lemma_pow_base_pos(16, 32);
        lemma_multiply_divide_lt(v as int, pow_base(16, 32), 1);
        assert(v as int / pow_base(16, 32) == 0);
    } else {
        lemma_uuid_decode_prefix(v, k - 1);
        let e = 32 - k;
        lemma_pow_base_pos(16, e);
        let x = v as int / pow_base(16, e);
        lemma_hex_val_inverse();
        let pos = uuid_digit_pos(k - 1);
        assert(uuid_digit_index(pos) == k - 1);
        assert(s[pos] == hex_digit(base_digit(v as int, e, 16)));
        assert(hex_val(s[pos]) == x % 16);
        assert(pow_base(16, e + 1) == 16 * pow_base(16, e));
        lemma_div_denominator(v as int, pow_base(16, e), 16);
        lemma_fundamental_div_mod(x, 16);
        assert(uuid_decode_prefix(s, k) == (x / 16) * 16 + x % 16);
    }
}

/// Law: the UUID text of any identifier value decodes back to that same
/// value.
pub proof fn lemma_uuid_round_trip(v: u128)
    ensures
        uuid_decode(uuid_render(v)) == Some(v),
{
    let s = uuid_render(v);
    lemma_hex_val_inverse();
    assert forall|j: int| 0 <= j < 32 implies hex_val(s[#[trigger] uuid_digit_pos(j)]) >= 0 by {
        lemma_pow_base_pos(16, 31 - j);
        assert(uuid_digit_index(uuid_digit_pos(j)) == j);
    }
    lemma_uuid_decode_prefix(v, 32);
    assert(uuid_decode_prefix(s, 32) == v as int / pow_base(16, 0));
}

proof fn lemma_pow_base_adds(b: int, e1: int, e2: int)
    requires
        b > 0,
        e1 >= 0,
        e2 >= 0,
    ensures
        pow_base(b, e1 + e2) == pow_base(b, e1) * pow_base(b, e2),
    decreases e1,
{
    if e1 > 0 {
        lemma_pow_base_adds(b, e1 - 1, e2);
        vstd::arithmetic::mul::lemma_mul_is_associative(
            b,
            pow_base(b, e1 - 1),
            pow_base(b, e2),
        );
    }
}

/// Law: the leading 10 characters of the native text carry exactly the
/// 48-bit timestamp field: two values with equal timestamp parts render
/// them identically.
pub proof fn lemma_native_timestamp_prefix(v1: u128, v2: u128)
    requires
        ts_part(v1) == ts_part(v2),
    ensures
        forall|i: int| 0 <= i < 10 ==> #[trigger] ulid_render(v1)[i] == ulid_render(v2)[i],
{
    assert forall|i: int| 0 <= i < 10 implies #[trigger] ulid_render(v1)[i] == ulid_render(
        v2,
    )[i] by {
        let j = 25 - i;
        lemma_pow_base_adds(32, 16, j - 16);
        lemma_pow_base_pos(32, 16);
        lemma_pow_base_pos(32, j - 16);
        assert(pow_base(32, 16) == 0x1_0000_0000_0000_0000_0000) by {
            reveal_with_fuel(pow_base, 17);
        }
        lemma_div_denominator(v1 as int, pow_base(32, 16), pow_base(32, j - 16));
        lemma_div_denominator(v2 as int, pow_base(32, 16), pow_base(32, j - 16));
        assert(v1 as int / pow_base(32, j) == ts_part(v1) / pow_base(32, j - 16));
        assert(v2 as int / pow_base(32, j) == ts_part(v2) / pow_base(32, j - 16));
    }
}

/// Whether text `a` sorts strictly before `b` in lexicographic order, among
/// texts of one length: at the first differing position, `a` holds the
/// smaller code point.
pub open spec fn lex_less(a: Seq<char>, b: Seq<char>) -> bool {
    exists|k: int|
        #![trigger a[k], b[k]]
        0 <= k < a.len() && k < b.len() && a.subrange(0, k) == b.subrange(0, k) && (a[k] as int) < (
        b[k] as int)
}

proof fn lemma_decode_prefix_stable(s1: Seq<char>, s2: Seq<char>, k: int)
    requires
        0 <= k <= s1.len(),
        k <= s2.len(),
        s1.subrange(0, k) == s2.subrange(0, k),
    ensures
        ulid_decode_prefix(s1, k) == ulid_decode_prefix(s2, k),
    decreases k,
{
    if k > 0 {
        assert(s1[k - 1] == s1.subrange(0, k)[k - 1]);
        assert(s2[k - 1] == s2.subrange(0, k)[k - 1]);
        assert(s1.subrange(0, k - 1) =~= s2.subrange(0, k - 1));
        lemma_decode_prefix_stable(s1, s2, k - 1);
    }
}

proof fn lemma_crockford_digit_ordered()
    ensures
        forall|a: int, b: int|
            0 <= a < b < 32 ==> (crockford_digit(a) as int) < (crockford_digit(b) as int),
{
}

proof fn lemma_native_order_from(v1: u128, v2: u128, k: int)
    requires
        v1 < v2,
        0 <= k <= 26,
        ulid_render(v1).subrange(0, k) == ulid_render(v2).subrange(0, k),
    ensures
        lex_less(ulid_render(v1), ulid_render(v2)),
    decreases 26 - k,
{
    let s1 = ulid_render(v1);
    let s2 = ulid_render(v2);
    if k == 26 {
        lemma_ulid_decode_prefix(v1, 26);
        lemma_ulid_decode_prefix(v2, 26);
        lemma_decode_prefix_stable(s1, s2, 26);
        assert(false);
    } else if s1[k] == s2[k] {
        assert(s1.subrange(0, k + 1) =~= s2.subrange(0, k + 1));
        lemma_native_order_from(v1, v2, k + 1);
    } else {
        let e = 25 - k;
        lemma_pow_base_pos(32, e);
        let x1 = v1 as int / pow_base(32, e);
        let x2 = v2 as int / pow_base(32, e);
        lemma_ulid_decode_prefix(v1, k);
        lemma_ulid_decode_prefix(v2, k);
        lemma_decode_prefix_stable(s1, s2, k);
        assert(pow_base(32, e + 1) == 32 * pow_base(32, e));
        lemma_div_denominator(v1 as int, pow_base(32, e), 32);
        lemma_div_denominator(v2 as int, pow_base(32, e), 32);
        assert(x1 / 32 == x2 / 32);
        vstd::arithmetic::div_mod::lemma_div_is_ordered(v1 as int, v2 as int, pow_base(32, e));
        lemma_fundamental_div_mod(x1, 32);
        lemma_fundamental_div_mod(x2, 32);
        let d1 = x1 % 32;
        let d2 = x2 % 32;
        assert(s1[k] == crockford_digit(d1));
        assert(s2[k] == crockford_digit(d2));
        assert(d1 < d2);
        lemma_crockford_digit_ordered();
        assert((s1[k] as int) < (s2[k] as int));
        assert(lex_less(s1, s2));
    }
}

/// Law: the native texts sort as the values do: of two distinct values, the
/// smaller one renders to the lexicographically smaller text.
pub proof fn lemma_native_order(v1: u128, v2: u128)
    requires
        v1 < v2,
    ensures
        lex_less(ulid_render(v1), ulid_render(v2)),
{
    assert(ulid_render(v1).subrange(0, 0) =~= ulid_render(v2).subrange(0, 0));
    lemma_native_order_from(v1, v2, 0);
}

/// Whether `c` is a lowercase hex digit character.
pub open spec fn is_lower_hex(c: char) -> bool {
    (0x30 <= c as int <= 0x39) || (0x61 <= c as int <= 0x66)
}

/// Law: the UUID text is 36 characters long, carries hyphens exactly at
/// positions 8, 13, 18 and 23, and lowercase hex digits everywhere else.
pub proof fn lemma_uuid_shape(v: u128)
    ensures
        uuid_render(v).len() == 36,
        forall|i: int|
            0 <= i < 36 ==> ((i == 8 || i == 13 || i == 18 || i == 23) <==> uuid_render(v)[i]
                == '-'),
        forall|i: int|
            0 <= i < 36 && !(i == 8 || i == 13 || i == 18 || i == 23) ==> is_lower_hex(
                uuid_render(v)[i],
            ),
{
    let s = uuid_render(v);
    assert forall|i: int| 0 <= i < 36 && !(i == 8 || i == 13 || i == 18 || i == 23) implies is_lower_hex(
        s[i],
    ) && s[i] != '-' by {
        lemma_pow_base_pos(16, 31 - uuid_digit_index(i));
    }
}

} // verus!
