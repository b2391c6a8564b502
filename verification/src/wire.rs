//! Wire-format primitives for the session token: decimal numbers and a
//! cookie-safe hex packing of text.
//!
//! The session token must travel inside a cookie value, so the claim
//! payload is packed into hex digits: each character becomes the six hex
//! digits of its code point. Packing and parsing are exact inverses,
//! proved here.

use vstd::prelude::*;
use vstd::arithmetic::div_mod::lemma_fundamental_div_mod;

verus! {

/// The decimal digit character for a value below ten.
pub open spec fn digit_char(d: nat) -> char {
    (48 + d) as char
}

pub open spec fn is_digit_char(c: char) -> bool {
    '0' <= c && c <= '9'
}

pub open spec fn digit_val(c: char) -> int {
    c as int - 48
}

/// Decimal representation, most significant digit first, no sign, no
/// leading zeros.
pub open spec fn dec_chars(n: nat) -> Seq<char>
    decreases n,
{
    if n < 10 {
        seq![digit_char(n)]
    } else {
        dec_chars(n / 10).push(digit_char(n % 10))
    }
}

/// Appends the decimal form of `n`.
pub fn push_dec_u128(out: &mut Vec<char>, n: u128)
    ensures
        final(out)@ == old(out)@ + dec_chars(n as nat),
    decreases n,
{
    if n < 10 {
        out.push((48 + n as u8) as char);
        proof {
            assert(final(out)@ =~= old(out)@ + dec_chars(n as nat));
        }
    } else {
        push_dec_u128(out, n / 10);
        out.push((48 + (n % 10) as u8) as char);
        proof {
            assert(final(out)@ =~= old(out)@ + dec_chars(n as nat));
        }
    }
}

/// All characters are decimal digits.
pub open spec fn all_digits(t: Seq<char>) -> bool {
    forall|i: int| 0 <= i < t.len() ==> is_digit_char(t[i])
}

/// The value of a digit string read after the accumulator `acc`.
pub open spec fn val_acc(t: Seq<char>, acc: int) -> int
    decreases t.len(),
{
    if t.len() == 0 {
        acc
    } else {
        val_acc(t.drop_first(), acc * 10 + digit_val(t[0]))
    }
}

/// Maximal-munch decimal parser: consumes digits from position `i`,
/// keeping the running value at or below `bound`; yields the value and
/// the first unconsumed position. `any` records whether a digit has been
/// consumed already.
pub open spec fn parse_dec(s: Seq<char>, i: int, acc: int, bound: int, any: bool) -> Option<
    (int, int),
>
    decreases s.len() - i,
    when 0 <= i <= s.len()
{
    if i < s.len() && is_digit_char(s[i]) {
        if acc * 10 + digit_val(s[i]) <= bound {
            parse_dec(s, i + 1, acc * 10 + digit_val(s[i]), bound, true)
        } else {
            None
        }
    } else {
        if any {
            Some((acc, i))
        } else {
            None
        }
    }
}

/// Executable [`parse_dec`] with a `u128` accumulator.
pub fn parse_dec_u128(s: &Vec<char>, i: usize, acc: u128, bound: u128, any: bool) -> (r: Option<
    (u128, usize),
>)
    requires
        i <= s@.len(),
        acc <= bound,
        9 <= bound,
    ensures
        match r {
            Some((v, j)) => parse_dec(s@, i as int, acc as int, bound as int, any) == Some(
                (v as int, j as int),
            ) && j <= s@.len(),
            None => parse_dec(s@, i as int, acc as int, bound as int, any) is None,
        },
    decreases s@.len() - i,
{
    if i < s.len() {
        let c = s[i];
        if '0' <= c && c <= '9' {
            let d = (c as u8 - 48) as u128;
            if acc <= (bound - d) / 10 {
                proof {
                    assert((acc as int) * 10 + (d as int) <= bound as int) by (nonlinear_arith)
                        requires
                            acc as int <= ((bound as int) - (d as int)) / 10,
                            0 <= acc as int,
                            0 <= d as int <= 9,
                            9 <= bound as int,
                    ;
                }
                return parse_dec_u128(s, i + 1, acc * 10 + d, bound, true);
            } else {
                proof {
                    assert((acc as int) * 10 + (d as int) > bound as int) by (nonlinear_arith)
                        requires
                            acc as int > ((bound as int) - (d as int)) / 10,
                            0 <= acc as int,
                            0 <= d as int <= 9,
                            9 <= bound as int,
                    ;
                }
                return None;
            }
        }
    }
    if any {
        Some((acc, i))
    } else {
        None
    }
}

proof fn lemma_val_acc_lower(t: Seq<char>, acc: int)
    requires
        0 <= acc,
        all_digits(t),
    ensures
        val_acc(t, acc) >= acc,
    decreases t.len(),
{
    if t.len() > 0 {
        assert(is_digit_char(t[0]));
        lemma_val_acc_lower(t.drop_first(), acc * 10 + digit_val(t[0]));
    }
}

proof fn lemma_val_acc_push(t: Seq<char>, c: char, acc: int)
    ensures
        val_acc(t.push(c), acc) == val_acc(t, acc) * 10 + digit_val(c),
    decreases t.len(),
{
    if t.len() == 0 {
        assert(t.push(c)[0] == c);
        assert(t.push(c).drop_first() =~= Seq::<char>::empty());
        assert(val_acc(Seq::<char>::empty(), acc * 10 + digit_val(c)) == acc * 10 + digit_val(c));
    } else {
        assert(t.push(c)[0] == t[0]);
        assert(t.push(c).drop_first() =~= t.drop_first().push(c));
        lemma_val_acc_push(t.drop_first(), c, acc * 10 + digit_val(t[0]));
    }
}

/// The decimal form of `n` reads back as `n`.
pub proof fn lemma_val_of_dec(n: nat)
    ensures
        val_acc(dec_chars(n), 0) == n,
        all_digits(dec_chars(n)),
        dec_chars(n).len() >= 1,
    decreases n,
{
    lemma_val_of_dec_acc(n, 0);
}

proof fn lemma_val_of_dec_acc(n: nat, acc: int)
    ensures
        val_acc(dec_chars(n), acc) == acc * pow10(dec_chars(n).len() as nat) + n,
        all_digits(dec_chars(n)),
        dec_chars(n).len() >= 1,
    decreases n,
{
    if n < 10 {
        assert(dec_chars(n) =~= seq![digit_char(n)]);
        assert(val_acc(seq![digit_char(n)], acc) == acc * 10 + n) by {
            assert(seq![digit_char(n)][0] == digit_char(n));
            assert(digit_char(n) as int == 48 + n);
            assert(seq![digit_char(n)].drop_first() =~= Seq::<char>::empty());
            assert(val_acc(Seq::<char>::empty(), acc * 10 + digit_val(digit_char(n))) == acc * 10
                + digit_val(digit_char(n)));
        }
        assert(pow10(0) == 1);
        assert(pow10(1) == 10);
    } else {
        lemma_val_of_dec_acc(n / 10, acc);
        lemma_val_acc_push(dec_chars(n / 10), digit_char(n % 10), acc);
        let k = dec_chars(n / 10).len() as nat;
        assert(val_acc(dec_chars(n), acc) == (acc * pow10(k) + n / 10) * 10 + n % 10);
        assert((acc * pow10(k) + n / 10) * 10 == acc * pow10(k) * 10 + (n / 10) * 10)
            by (nonlinear_arith);
        assert(acc * pow10(k) * 10 == acc * (pow10(k) * 10)) by (nonlinear_arith);
        assert(pow10(k) * 10 == pow10(k + 1));
        lemma_fundamental_div_mod(n as int, 10);
    }
}

pub open spec fn pow10(k: nat) -> int
    decreases k,
{
    if k == 0 {
        1
    } else {
        10 * pow10((k - 1) as nat)
    }
}

/// Parsing a digit run that spells `t`, followed by a non-digit or the
/// end, yields exactly the accumulated value.
pub proof fn lemma_parse_digit_run(s: Seq<char>, i: int, acc: int, bound: int, t: Seq<char>, any: bool)
    requires
        0 <= i,
        i + t.len() <= s.len(),
        forall|j: int| 0 <= j < t.len() ==> s[i + j] == t[j],
        all_digits(t),
        i + t.len() == s.len() || !is_digit_char(s[i + t.len()]),
        0 <= acc,
        any || t.len() > 0,
        val_acc(t, acc) <= bound,
    ensures
        parse_dec(s, i, acc, bound, any) == Some((val_acc(t, acc), i + t.len())),
    decreases t.len(),
{
    if t.len() == 0 {
        assert(i == s.len() || !is_digit_char(s[i]));
    } else {
        assert(s[i] == t[0]);
        assert(is_digit_char(t[0]));
        let acc2 = acc * 10 + digit_val(t[0]);
        assert(0 <= acc2);
        assert(all_digits(t.drop_first()));
        lemma_val_acc_lower(t.drop_first(), acc2);
        assert(val_acc(t, acc) == val_acc(t.drop_first(), acc2));
        assert(forall|j: int|
            0 <= j < t.drop_first().len() ==> s[i + 1 + j] == t.drop_first()[j]);
        lemma_parse_digit_run(s, i + 1, acc2, bound, t.drop_first(), true);
    }
}

/// A character allowed in a raw service or scope identifier.
pub open spec fn is_ident_char(c: char) -> bool {
    ('a' <= c && c <= 'z') || ('0' <= c && c <= '9') || c == '_'
}

/// Executable test for [`is_ident_char`].
pub fn ident_char(c: char) -> (r: bool)
    ensures
        r == is_ident_char(c),
{
    ('a' <= c && c <= 'z') || ('0' <= c && c <= '9') || c == '_'
}

/// The hex digit character for a value below sixteen (lowercase).
pub open spec fn hex_digit_char(d: nat) -> char {
    if d < 10 {
        (48 + d) as char
    } else {
        (87 + d) as char
    }
}

pub open spec fn is_hex_char(c: char) -> bool {
    ('0' <= c && c <= '9') || ('a' <= c && c <= 'f')
}

pub open spec fn hex_val(c: char) -> int {
    if '0' <= c && c <= '9' {
        c as int - 48
    } else {
        c as int - 87
    }
}

/// The six hex digits of a character's code point, most significant
/// first.
pub open spec fn char_hex6(c: char) -> Seq<char> {
    let v = c as int;
    let r1 = v % 16;
    let v1 = v / 16;
    let r2 = v1 % 16;
    let v2 = v1 / 16;
    let r3 = v2 % 16;
    let v3 = v2 / 16;
    let r4 = v3 % 16;
    let v4 = v3 / 16;
    let r5 = v4 % 16;
    let v5 = v4 / 16;
    seq![
        hex_digit_char((v5 % 16) as nat),
        hex_digit_char(r5 as nat),
        hex_digit_char(r4 as nat),
        hex_digit_char(r3 as nat),
        hex_digit_char(r2 as nat),
        hex_digit_char(r1 as nat),
    ]
}

/// Text packed for transport: each character as six hex digits.
pub open spec fn hex_pack(s: Seq<char>) -> Seq<char>
    decreases s.len(),
{
    if s.len() == 0 {
        Seq::empty()
    } else {
        hex_pack(s.drop_last()) + char_hex6(s.last())
    }
}

/// A code point that is a valid character: below the surrogate range or
/// above it, and within the Unicode maximum.
pub open spec fn is_scalar_value(v: nat) -> bool {
    v < 0xD800 || (0xE000 <= v && v <= 0x10FFFF)
}

/// The inverse of [`hex_pack`] from position `i` on: six hex digits at a
/// time, each group a valid code point, nothing left over.
pub open spec fn hex_unpack(s: Seq<char>, i: int) -> Option<Seq<char>>
    decreases s.len() - i,
    when 0 <= i <= s.len()
{
    if i == s.len() {
        Some(Seq::empty())
    } else if i + 6 <= s.len() && (forall|j: int| i <= j < i + 6 ==> is_hex_char(s[j])) {
        let v = hex_val(s[i]) * 0x100000 + hex_val(s[i + 1]) * 0x10000 + hex_val(s[i + 2]) * 0x1000
            + hex_val(s[i + 3]) * 0x100 + hex_val(s[i + 4]) * 0x10 + hex_val(s[i + 5]);
        if is_scalar_value(v as nat) {
            match hex_unpack(s, i + 6) {
                Some(rest) => Some(seq![v as char] + rest),
                None => None,
            }
        } else {
            None
        }
    } else {
        None
    }
}

/// Executable test for [`is_hex_char`].
pub fn hex_char(c: char) -> (r: bool)
    ensures
        r == is_hex_char(c),
{
    ('0' <= c && c <= '9') || ('a' <= c && c <= 'f')
}

/// The value of a hex digit character.
pub fn hex_char_val(c: char) -> (r: u32)
    requires
        is_hex_char(c),
    ensures
        r == hex_val(c),
        r < 16,
{
    if '0' <= c && c <= '9' {
        c as u32 - 48
    } else {
        c as u32 - 87
    }
}

/// The hex digit character for a value below sixteen.
fn hex_digit(d: u32) -> (r: char)
    requires
        d < 16,
    ensures
        r == hex_digit_char(d as nat),
{
    if d < 10 {
        (48 + d as u8) as char
    } else {
        (87 + d as u8) as char
    }
}

/// Relies on `char::from_u32`: yields the character for any valid code
/// point, which a code point satisfying [`is_scalar_value`] is.
#[verifier::external_body]
fn char_from_u32(v: u32) -> (r: char)
    requires
        is_scalar_value(v as nat),
    ensures
        r == v as char,
{
    char::from_u32(v).unwrap_or(' ')
}

/// Appends the packed form of `s`: six hex digits per character.
pub fn hex_pack_into(out: &mut Vec<char>, s: &Vec<char>)
    ensures
        final(out)@ == old(out)@ + hex_pack(s@),
{
    let mut i: usize = 0;
    while i < s.len()
        invariant
            i <= s@.len(),
            out@ == old(out)@ + hex_pack(s@.subrange(0, i as int)),
        decreases s@.len() - i,
    {
        let c = s[i];
        proof {
            crate::text::lemma_char_bounds(c);
        }
        let v = c as u32;
        let r1 = v % 16;
        let v1 = v / 16;
        let r2 = v1 % 16;
        let v2 = v1 / 16;
        let r3 = v2 % 16;
        let v3 = v2 / 16;
        let r4 = v3 % 16;
        let v4 = v3 / 16;
        let r5 = v4 % 16;
        let v5 = v4 / 16;
        out.push(hex_digit(v5 % 16));
        out.push(hex_digit(r5));
        out.push(hex_digit(r4));
        out.push(hex_digit(r3));
        out.push(hex_digit(r2));
        out.push(hex_digit(r1));
        proof {
            assert(s@.subrange(0, i + 1).drop_last() =~= s@.subrange(0, i as int));
            assert(s@.subrange(0, i + 1).last() == s@[i as int]);
            assert(hex_pack(s@.subrange(0, i + 1)) == hex_pack(s@.subrange(0, i as int))
                + char_hex6(s@[i as int]));
            assert(char_hex6(s@[i as int]) =~= seq![
                hex_digit_char((v5 % 16) as nat),
                hex_digit_char(r5 as nat),
                hex_digit_char(r4 as nat),
                hex_digit_char(r3 as nat),
                hex_digit_char(r2 as nat),
                hex_digit_char(r1 as nat),
            ]);
            assert(out@ =~= old(out)@ + hex_pack(s@.subrange(0, i + 1)));
        }
        i = i + 1;
    }
    proof {
        assert(s@.subrange(0, s@.len() as int) =~= s@);
    }
}

/// Unpacks a whole packed text; yields the original characters exactly
/// when the input is a valid packing.
pub fn hex_unpack_all(s: &Vec<char>) -> (r: Option<Vec<char>>)
    ensures
        match r {
            Some(v) => hex_unpack(s@, 0) == Some(v@),
            None => hex_unpack(s@, 0) is None,
        },
{
    let mut out: Vec<char> = Vec::new();
    let mut i: usize = 0;
    loop
        invariant
            i <= s@.len(),
            hex_unpack(s@, i as int) matches Some(rest) ==> hex_unpack(s@, 0) == Some(
                out@ + rest,
            ),
            hex_unpack(s@, i as int) is None ==> hex_unpack(s@, 0) is None,
        ensures
            i == s@.len(),
            hex_unpack(s@, i as int) matches Some(rest) ==> hex_unpack(s@, 0) == Some(
                out@ + rest,
            ),
        decreases s@.len() - i,
    {
        if i == s.len() {
            break;
        }
        if s.len() - i < 6 {
            return None;
        }
        let c0 = s[i];
        let c1 = s[i + 1];
        let c2 = s[i + 2];
        let c3 = s[i + 3];
        let c4 = s[i + 4];
        let c5 = s[i + 5];
        if !(hex_char(c0) && hex_char(c1) && hex_char(c2) && hex_char(c3) && hex_char(c4)
            && hex_char(c5)) {
            return None;
        }
        proof {
            assert(forall|j: int| i <= j < i + 6 ==> is_hex_char(s@[j]));
        }
        let v = hex_char_val(c0) * 0x100000 + hex_char_val(c1) * 0x10000 + hex_char_val(c2)
            * 0x1000 + hex_char_val(c3) * 0x100 + hex_char_val(c4) * 0x10 + hex_char_val(c5);
        if !(v < 0xD800 || (0xE000 <= v && v <= 0x10FFFF)) {
            return None;
        }
        let c = char_from_u32(v);
        out.push(c);
        proof {
            assert(hex_unpack(s@, i + 6) matches Some(rest2) ==> hex_unpack(s@, i as int)
                == Some(seq![v as char] + rest2));
            assert(forall|rest2: Seq<char>|
                out@ + rest2 =~= out@.drop_last() + (seq![v as char] + rest2));
        }
        i = i + 6;
    }
    proof {
        assert(hex_unpack(s@, s@.len() as int) == Some(Seq::<char>::empty()));
        assert(out@ + Seq::<char>::empty() =~= out@);
    }
    Some(out)
}

proof fn lemma_hex6_props(c: char)
    ensures
        char_hex6(c).len() == 6,
        forall|j: int| 0 <= j < 6 ==> is_hex_char(#[trigger] char_hex6(c)[j]),
        hex_val(char_hex6(c)[0]) * 0x100000 + hex_val(char_hex6(c)[1]) * 0x10000 + hex_val(
            char_hex6(c)[2],
        ) * 0x1000 + hex_val(char_hex6(c)[3]) * 0x100 + hex_val(char_hex6(c)[4]) * 0x10 + hex_val(
            char_hex6(c)[5],
        ) == c as int,
{
    let v = c as int;
    let r1 = v % 16;
    let v1 = v / 16;
    let r2 = v1 % 16;
    let v2 = v1 / 16;
    let r3 = v2 % 16;
    let v3 = v2 / 16;
    let r4 = v3 % 16;
    let v4 = v3 / 16;
    let r5 = v4 % 16;
    let v5 = v4 / 16;
    assert(0 <= v <= 0x10FFFF);
    lemma_fundamental_div_mod(v, 16);
    lemma_fundamental_div_mod(v1, 16);
    lemma_fundamental_div_mod(v2, 16);
    lemma_fundamental_div_mod(v3, 16);
    lemma_fundamental_div_mod(v4, 16);
    assert(v5 < 16);
    assert(v5 % 16 == v5);
    assert(forall|d: nat| d < 16 ==> is_hex_char(#[trigger] hex_digit_char(d)));
    assert(forall|d: nat| d < 16 ==> hex_val(#[trigger] hex_digit_char(d)) == d);
    assert(v == v5 * 0x100000 + r5 * 0x10000 + r4 * 0x1000 + r3 * 0x100 + r2 * 0x10 + r1);
}

proof fn lemma_hex_pack_cons(p: Seq<char>)
    requires
        p.len() > 0,
    ensures
        hex_pack(p) == char_hex6(p[0]) + hex_pack(p.drop_first()),
    decreases p.len(),
{
    if p.len() == 1 {
        assert(p.drop_last() =~= Seq::<char>::empty());
        assert(p.drop_first() =~= Seq::<char>::empty());
        assert(hex_pack(p) =~= char_hex6(p[0]) + hex_pack(p.drop_first()));
    } else {
        lemma_hex_pack_cons(p.drop_last());
        assert(p.drop_last()[0] == p[0]);
        assert(p.drop_last().drop_first() =~= p.drop_first().drop_last());
        assert(p.drop_first().last() == p.last());
        assert(hex_pack(p.drop_first()) == hex_pack(p.drop_first().drop_last()) + char_hex6(
            p.drop_first().last(),
        ));
        assert(hex_pack(p) =~= char_hex6(p[0]) + hex_pack(p.drop_first()));
    }
}

proof fn lemma_hex_unpack_shift(a: Seq<char>, b: Seq<char>, i: int)
    requires
        0 <= i <= b.len(),
    ensures
        hex_unpack(a + b, a.len() + i) == hex_unpack(b, i),
    decreases b.len() - i,
{
    let s = a + b;
    assert(forall|j: int| 0 <= j < b.len() ==> s[a.len() + j] == b[j]);
    if i == b.len() {
    } else if a.len() + i + 6 <= s.len() && (forall|j: int|
        a.len() + i <= j < a.len() + i + 6 ==> is_hex_char(s[j])) {
        assert(forall|j: int| i <= j < i + 6 ==> is_hex_char(b[j]));
        lemma_hex_unpack_shift(a, b, i + 6);
    } else {
        if i + 6 <= b.len() && (forall|j: int| i <= j < i + 6 ==> is_hex_char(b[j])) {
            assert(forall|j: int| a.len() + i <= j < a.len() + i + 6 ==> is_hex_char(s[j]));
            assert(false);
        }
    }
}

/// Every character of a packed text is a hex digit.
pub proof fn lemma_hex_pack_chars(s: Seq<char>)
    ensures
        forall|i: int| 0 <= i < hex_pack(s).len() ==> is_hex_char(#[trigger] hex_pack(s)[i]),
    decreases s.len(),
{
    if s.len() > 0 {
        lemma_hex_pack_chars(s.drop_last());
        crate::text::lemma_char_bounds(s.last());
        assert(forall|d: nat| d < 16 ==> is_hex_char(#[trigger] hex_digit_char(d)));
        assert(forall|j: int| 0 <= j < 6 ==> is_hex_char(#[trigger] char_hex6(s.last())[j]));
        assert(forall|i: int|
            0 <= i < hex_pack(s).len() ==> is_hex_char(#[trigger] hex_pack(s)[i])) by {
            assert(forall|i: int|
                0 <= i < hex_pack(s.drop_last()).len() ==> hex_pack(s)[i] == hex_pack(
                    s.drop_last(),
                )[i]);
            assert(forall|i: int|
                hex_pack(s.drop_last()).len() <= i < hex_pack(s).len() ==> hex_pack(s)[i]
                    == char_hex6(s.last())[i - hex_pack(s.drop_last()).len()]);
        }
    }
}

/// Law: unpacking a packed text yields the text back, for every text.
pub proof fn lemma_hex_round_trip(p: Seq<char>)
    ensures
        hex_unpack(hex_pack(p), 0) == Some(p),
    decreases p.len(),
{
    if p.len() == 0 {
        assert(hex_pack(p).len() == 0);
    } else {
        let c = p[0];
        crate::text::lemma_char_bounds(c);
        lemma_hex_pack_cons(p);
        let s = hex_pack(p);
        let t = hex_pack(p.drop_first());
        lemma_hex6_props(c);
        assert(forall|j: int| 0 <= j < 6 ==> s[j] == char_hex6(c)[j]);
        assert(forall|j: int| 0 <= j < 6 ==> is_hex_char(s[j]));
        let v = hex_val(s[0]) * 0x100000 + hex_val(s[1]) * 0x10000 + hex_val(s[2]) * 0x1000
            + hex_val(s[3]) * 0x100 + hex_val(s[4]) * 0x10 + hex_val(s[5]);
        assert(v == c as int);
        assert(0 <= c as int);
        assert(((c as int) < 0xD800) || (0xE000 <= (c as int) && (c as int) <= 0x10FFFF));
        assert(is_scalar_value(v as nat));
        assert(v as char == c);
        lemma_hex_round_trip(p.drop_first());
        lemma_hex_unpack_shift(char_hex6(c), t, 0);
        assert(hex_unpack(s, 6) == Some(p.drop_first()));
        assert(seq![c] + p.drop_first() =~= p);
    }
}

} // verus!
