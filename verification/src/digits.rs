//! Decimal representations of unsigned and signed integers, as byte and
//! character sequences.  The benchmark keys and the report lines are decimal
//! strings, so the whole pipeline rests on these definitions.
use vstd::prelude::*;

verus! {

use vstd::string::StringSliceAdditionalSpecFns;

/// Decimal digits of `v`, most significant first, as ASCII bytes.
/// `0` is represented by the empty sequence.
pub open spec fn dec_rep(v: nat) -> Seq<u8>
    decreases v,
{
    if v == 0 {
        Seq::empty()
    } else {
        dec_rep(v / 10).push((v % 10 + 48) as u8)
    }
}

/// Decimal digits of `v` with the usual convention that `0` is written "0".
pub open spec fn dec_of(v: nat) -> Seq<u8> {
    if v == 0 {
        seq![48u8]
    } else {
        dec_rep(v)
    }
}

/// Signed decimal: a leading '-' byte for negative numbers.
pub open spec fn int_dec_of(v: int) -> Seq<u8> {
    if v < 0 {
        seq![45u8] + dec_of((-v) as nat)
    } else {
        dec_of(v as nat)
    }
}

/// Every byte of `dec_rep(v)` is an ASCII digit.
pub proof fn lemma_dec_rep_digits(v: nat)
    ensures
        forall|i: int| 0 <= i < dec_rep(v).len() ==> 48 <= #[trigger] dec_rep(v)[i] <= 57,
    decreases v,
{
    if v > 0 {
        lemma_dec_rep_digits(v / 10);
        let d: u8 = (v % 10 + 48) as u8;
        assert(48 <= d <= 57);
        assert(dec_rep(v) == dec_rep(v / 10).push(d));
        assert forall|i: int| 0 <= i < dec_rep(v).len() implies 48 <= #[trigger] dec_rep(v)[i]
            <= 57 by {
            if i < dec_rep(v).len() - 1 {
                assert(dec_rep(v)[i] == dec_rep(v / 10)[i]);
            } else {
                assert(dec_rep(v)[i] == d);
            }
        }
    }
}

/// Distinct numbers have distinct digit strings.
pub proof fn lemma_dec_rep_injective(a: nat, b: nat)
    requires
        dec_rep(a) == dec_rep(b),
    ensures
        a == b,
    decreases a,
{
    if a == 0 {
        if b != 0 {
            assert(dec_rep(b).len() > 0);
        }
    } else {
        if b == 0 {
            assert(dec_rep(a).len() > 0);
        } else {
            assert(dec_rep(a).last() == dec_rep(b).last());
            assert(dec_rep(a).last() == (a % 10 + 48) as u8);
            assert(dec_rep(b).last() == (b % 10 + 48) as u8);
            assert((a % 10 + 48) as u8 == a % 10 + 48);
            assert((b % 10 + 48) as u8 == b % 10 + 48);
            assert(a % 10 == b % 10);
            assert(dec_rep(a).drop_last() =~= dec_rep(a / 10));
            assert(dec_rep(b).drop_last() =~= dec_rep(b / 10));
            lemma_dec_rep_injective(a / 10, b / 10);
        }
    }
}

/// `dec_of` is injective as well: "0" collides with no positive number
/// because a positive number's digit string never is exactly "0".
pub proof fn lemma_dec_of_injective(a: nat, b: nat)
    requires
        dec_of(a) == dec_of(b),
    ensures
        a == b,
{
    if a == 0 && b != 0 {
        lemma_dec_rep_not_zero_string(b);
    } else if a != 0 && b == 0 {
        lemma_dec_rep_not_zero_string(a);
    } else if a != 0 && b != 0 {
        lemma_dec_rep_injective(a, b);
    }
}

/// For v > 0, dec_rep(v) is never the single byte "0".
proof fn lemma_dec_rep_not_zero_string(v: nat)
    requires
        v > 0,
    ensures
        dec_rep(v) != seq![48u8],
{
    if dec_rep(v) == seq![48u8] {
        assert(dec_rep(v).len() == 1);
        assert(dec_rep(v / 10).len() == 0);
        if v / 10 != 0 {
            assert(dec_rep(v / 10).len() > 0);
        }
        assert(v / 10 == 0);
        assert(v % 10 == v);
        assert(dec_rep(v)[0] == (v % 10 + 48) as u8);
        assert(v == 0);
    }
}

/// Signed decimal strings are injective: negatives start with '-' (45),
/// non-negatives with a digit (48..57).
pub proof fn lemma_int_dec_of_injective(a: int, b: int)
    requires
        int_dec_of(a) == int_dec_of(b),
    ensures
        a == b,
{
    if a < 0 && b >= 0 {
        lemma_dec_of_first_digit(b as nat);
        assert(int_dec_of(a)[0] == 45);
    } else if a >= 0 && b < 0 {
        lemma_dec_of_first_digit(a as nat);
        assert(int_dec_of(b)[0] == 45);
    } else if a < 0 && b < 0 {
        assert(int_dec_of(a).subrange(1, int_dec_of(a).len() as int) =~= dec_of((-a) as nat));
        assert(int_dec_of(b).subrange(1, int_dec_of(b).len() as int) =~= dec_of((-b) as nat));
        lemma_dec_of_injective((-a) as nat, (-b) as nat);
    } else {
        lemma_dec_of_injective(a as nat, b as nat);
    }
}

/// The first byte of `dec_of(v)` is an ASCII digit.
pub proof fn lemma_dec_of_first_digit(v: nat)
    ensures
        dec_of(v).len() > 0,
        48 <= dec_of(v)[0] <= 57,
{
    if v > 0 {
        lemma_dec_rep_digits(v);
    }
}

/// Decimal digit bytes never contain NUL; signed ones neither.
pub proof fn lemma_int_dec_of_bytes(v: int)
    ensures
        int_dec_of(v).len() > 0,
        forall|i: int|
            0 <= i < int_dec_of(v).len() ==> 45 <= #[trigger] int_dec_of(v)[i] <= 57,
{
    if v < 0 {
        lemma_dec_of_first_digit((-v) as nat);
        lemma_dec_rep_digits((-v) as nat);
        assert forall|i: int| 0 <= i < int_dec_of(v).len() implies 45 <= #[trigger] int_dec_of(v)[i]
            <= 57 by {
            if i > 0 {
                assert(int_dec_of(v)[i] == dec_of((-v) as nat)[i - 1]);
                if (-v) as nat > 0 {
                    assert(48 <= dec_rep((-v) as nat)[i - 1] <= 57);
                }
            }
        }
    } else {
        lemma_dec_of_first_digit(v as nat);
        lemma_dec_rep_digits(v as nat);
    }
}

/// Digits of `v`, most significant first (empty for zero).
pub fn dec_rep_digits(v: u128) -> (r: Vec<u8>)
    ensures
        r@ == dec_rep(v as nat),
{
    let mut rev: Vec<u8> = Vec::new();
    let mut x: u128 = v;
    while x > 0
        invariant
            dec_rep(v as nat) == dec_rep(x as nat) + rev@.reverse(),
        decreases x,
    {
        let d: u8 = (x % 10 + 48) as u8;
        let ghost prev = rev@;
        rev.push(d);
        x = x / 10;
        proof {
            assert(rev@.reverse() =~= seq![d] + prev.reverse());
            assert(dec_rep(x as nat).push(d) + prev.reverse() =~= dec_rep(x as nat) + (seq![d]
                + prev.reverse()));
        }
    }
    let mut r: Vec<u8> = Vec::new();
    let mut i: usize = rev.len();
    while i > 0
        invariant
            i <= rev@.len(),
            r@ =~= rev@.reverse().subrange(0, rev@.len() - i),
        decreases i,
    {
        let d: u8 = rev[i - 1];
        r.push(d);
        i = i - 1;
        proof {
            assert(r@ =~= rev@.reverse().subrange(0, rev@.len() - i));
        }
    }
    proof {
        assert(r@ =~= rev@.reverse());
        assert(dec_rep(v as nat) =~= dec_rep(0nat) + rev@.reverse());
        assert(dec_rep(v as nat) =~= rev@.reverse());
    }
    r
}

/// Digits of `v` under the usual convention (zero is "0").
pub fn dec_of_digits(v: u128) -> (r: Vec<u8>)
    ensures
        r@ == dec_of(v as nat),
{
    if v == 0 {
        let mut r: Vec<u8> = Vec::new();
        r.push(48);
        proof {
            assert(r@ =~= seq![48u8]);
        }
        r
    } else {
        dec_rep_digits(v)
    }
}

/// Append one ASCII byte (a digit or '-') to a string, as a character.
pub fn push_ascii(s: &mut String, d: u8)
    requires
        d == 45 || 48 <= d <= 57,
    ensures
        final(s)@ == old(s)@.push(d as char),
{
    proof {
        reveal_strlit("-");
        reveal_strlit("0");
        reveal_strlit("1");
        reveal_strlit("2");
        reveal_strlit("3");
        reveal_strlit("4");
        reveal_strlit("5");
        reveal_strlit("6");
        reveal_strlit("7");
        reveal_strlit("8");
        reveal_strlit("9");
    }
    match d {
        45 => s.append("-"),
        48 => s.append("0"),
        49 => s.append("1"),
        50 => s.append("2"),
        51 => s.append("3"),
        52 => s.append("4"),
        53 => s.append("5"),
        54 => s.append("6"),
        55 => s.append("7"),
        56 => s.append("8"),
        57 => s.append("9"),
        _ => {
            proof {
                assert(false);
            }
        },
    }
    proof {
        assert(s@ =~= old(s)@.push(d as char));
    }
}

/// Turn a run of ASCII bytes (digits and '-') into the string spelling them.
pub fn ascii_digits_to_string(digits: &Vec<u8>) -> (r: String)
    requires
        forall|i: int| 0 <= i < digits@.len() ==> (#[trigger] digits@[i] == 45 || 48 <= digits@[i]
            <= 57),
    ensures
        r@.len() == digits@.len(),
        forall|i: int| 0 <= i < digits@.len() ==> r@[i] == #[trigger] digits@[i] as char,
{
    let mut r: String = String::new();
    let mut i: usize = 0;
    while i < digits.len()
        invariant
            i <= digits@.len(),
            r@.len() == i,
            forall|j: int| 0 <= j < i ==> r@[j] == #[trigger] digits@[j] as char,
            forall|j: int| 0 <= j < digits@.len() ==> (#[trigger] digits@[j] == 45 || 48
                <= digits@[j] <= 57),
        decreases digits@.len() - i,
    {
        push_ascii(&mut r, digits[i]);
        i = i + 1;
    }
    r
}

/// ASCII bytes read as characters.
pub open spec fn chars_of(bytes: Seq<u8>) -> Seq<char> {
    bytes.map_values(|b: u8| b as char)
}

/// The decimal spelling of `v`, as characters.
pub open spec fn dec_chars(v: nat) -> Seq<char> {
    chars_of(dec_of(v))
}

/// `v` written in decimal, as a `String`.
pub fn u128_to_dec_string(v: u128) -> (r: String)
    ensures
        r@ == dec_chars(v as nat),
{
    let digits = dec_of_digits(v);
    proof {
        lemma_dec_of_first_digit(v as nat);
        lemma_dec_rep_digits(v as nat);
    }
    let r = ascii_digits_to_string(&digits);
    proof {
        assert(r@ =~= dec_chars(v as nat));
    }
    r
}

/// `v` written in decimal, as a `String`.
pub fn u64_to_dec_string(v: u64) -> (r: String)
    ensures
        r@ == dec_chars(v as nat),
{
    u128_to_dec_string(v as u128)
}

/// The signed decimal spelling of `v`, as characters.
pub open spec fn int_chars(v: int) -> Seq<char> {
    chars_of(int_dec_of(v))
}

/// `v` written in signed decimal, as a `String`.
pub fn i32_to_dec_string(v: i32) -> (r: String)
    ensures
        r@ == int_chars(v as int),
{
    if v >= 0 {
        let r = u64_to_dec_string(v as u64);
        proof {
            assert(r@ =~= int_chars(v as int));
        }
        r
    } else {
        let mag: u64 = (-(v as i64)) as u64;
        let mut r: String = String::new();
        push_ascii(&mut r, 45);
        let digits = u64_to_dec_string(mag);
        r.append(digits.as_str());
        proof {
            assert(seq![45u8 as char] + dec_chars(mag as nat) =~= chars_of(
                seq![45u8] + dec_of(mag as nat),
            ));
            assert(r@ =~= int_chars(v as int));
        }
        r
    }
}

/// `v` written in decimal, as a `String`.
pub fn usize_to_dec_string(v: usize) -> (r: String)
    ensures
        r@ == dec_chars(v as nat),
{
    u64_to_dec_string(v as u64)
}

/// Every byte of `dec_of(v)` is an ASCII digit.
pub proof fn lemma_dec_of_digits(v: nat)
    ensures
        forall|i: int| 0 <= i < dec_of(v).len() ==> 48 <= #[trigger] dec_of(v)[i] <= 57,
{
    if v != 0 {
        lemma_dec_rep_digits(v);
    }
}

/// Powers of ten, for digit-count bounds.
pub open spec fn pow10(k: nat) -> nat
    decreases k,
{
    if k == 0 {
        1
    } else {
        10 * pow10((k - 1) as nat)
    }
}

/// A number below the `k`-th power of ten has at most `k` digits.
pub proof fn lemma_dec_rep_len_le(v: nat, k: nat)
    requires
        v < pow10(k),
    ensures
        dec_rep(v).len() <= k,
    decreases k,
{
    if v > 0 {
        assert(pow10(0) == 1);
        assert(k > 0);
        assert(v / 10 < pow10((k - 1) as nat)) by (nonlinear_arith)
            requires
                v < pow10(k),
                k > 0,
                pow10(k) == 10 * pow10((k - 1) as nat),
        ;
        lemma_dec_rep_len_le(v / 10, (k - 1) as nat);
    }
}

/// Digit-count bounds for the integer widths the workloads draw keys from.
pub proof fn lemma_dec_len_bounds()
    ensures
        forall|v: nat| v < 0x1_0000_0000 ==> #[trigger] dec_of(v).len() <= 10,
        forall|v: nat| v < 0x1_0000_0000_0000_0000 ==> #[trigger] dec_of(v).len() <= 20,
        forall|v: int| -0x8000_0000 <= v < 0x1_0000_0000 ==> #[trigger] int_dec_of(v).len() <= 11,
{
    assert(pow10(10) == 10_000_000_000) by {
        reveal_with_fuel(pow10, 11);
    }
    assert(pow10(20) == 100_000_000_000_000_000_000) by {
        reveal_with_fuel(pow10, 21);
    }
    assert forall|v: nat| v < 0x1_0000_0000 implies #[trigger] dec_of(v).len() <= 10 by {
        lemma_dec_rep_len_le(v, 10);
    }
    assert forall|v: nat| v < 0x1_0000_0000_0000_0000 implies #[trigger] dec_of(v).len() <= 20 by {
        lemma_dec_rep_len_le(v, 20);
    }
    assert forall|v: int| -0x8000_0000 <= v < 0x1_0000_0000 implies #[trigger] int_dec_of(v).len()
        <= 11 by {
        if v < 0 {
            lemma_dec_rep_len_le((-v) as nat, 10);
        } else {
            lemma_dec_rep_len_le(v as nat, 10);
        }
    }
}

/// String equality, decided on the UTF-8 bytes.
pub fn str_eq(a: &str, b: &str) -> (r: bool)
    ensures
        r == (a@ == b@),
{
    proof {
        vstd::utf8::encode_utf8_decode_utf8(a@);
        vstd::utf8::encode_utf8_decode_utf8(b@);
    }
    let ab = a.as_bytes();
    let bb = b.as_bytes();
    if ab.len() != bb.len() {
        return false;
    }
    let n = ab.len();
    let mut i: usize = 0;
    while i < n
        invariant
            0 <= i <= n,
            n == ab@.len() == bb@.len(),
            ab@ == a.spec_bytes(),
            bb@ == b.spec_bytes(),
            forall|j: int| 0 <= j < i ==> ab@[j] == #[trigger] bb@[j],
        decreases n - i,
    {
        if ab[i] != bb[i] {
            proof {
                assert(a.spec_bytes() != b.spec_bytes());
                vstd::utf8::encode_utf8_decode_utf8(a@);
                vstd::utf8::encode_utf8_decode_utf8(b@);
            }
            return false;
        }
        i = i + 1;
    }
    proof {
        assert(ab@ =~= bb@);
        vstd::utf8::encode_utf8_decode_utf8(a@);
        vstd::utf8::encode_utf8_decode_utf8(b@);
        assert(vstd::utf8::decode_utf8(a.spec_bytes()) == vstd::utf8::decode_utf8(b.spec_bytes()));
    }
    true
}

/// ASCII bytes survive the round trip through characters: reading them as
/// characters and encoding the characters as UTF-8 gives the bytes back.
pub proof fn lemma_chars_of_encode(bytes: Seq<u8>)
    requires
        forall|i: int| 0 <= i < bytes.len() ==> #[trigger] bytes[i] < 128,
    ensures
        vstd::utf8::is_ascii_chars(chars_of(bytes)),
        vstd::utf8::encode_utf8(chars_of(bytes)) == bytes,
{
    let cs = chars_of(bytes);
    assert forall|i: int| 0 <= i < cs.len() implies '\0' <= #[trigger] cs[i] <= '\u{7f}' by {
        assert(bytes[i] < 128);
        assert(cs[i] == bytes[i] as char);
    }
    vstd::utf8::is_ascii_chars_encode_utf8(cs);
    assert(vstd::utf8::encode_utf8(cs) =~= bytes);
}

} // verus!
