//! The name sanitizer: turns an arbitrary raw topic name into a bounded,
//! transport-legal identifier of the form `prefix + sanitized body + checksum`.

use vstd::arithmetic::div_mod::lemma_fundamental_div_mod;
use vstd::prelude::*;
use vstd::string::StrSliceExecFns;
use vstd::utf8::encode_utf8;

verus! {

/// Modulus of the rolling checksum.
pub const CHECKSUM_MODULUS: u64 = 1_000_000_007;

/// Multiplier of the rolling checksum.
pub const CHECKSUM_MULTIPLIER: u64 = 31;

/// Greatest length, in characters, of a sanitized topic name.
pub const MAX_NAME_LENGTH: usize = 256;

/// The literal namespace prefix that every sanitized name starts with.
pub open spec fn spec_prefix() -> Seq<char> {
    seq!['r', 'o', 's', '2', '_']
}

/// Rolling polynomial checksum over a byte sequence: starting from zero,
/// each byte is folded in as `acc * 31 + byte`, reduced modulo 1_000_000_007.
pub open spec fn spec_checksum(bytes: Seq<u8>) -> nat
    decreases bytes.len(),
{
    if bytes.len() == 0 {
        0
    } else {
        ((spec_checksum(bytes.drop_last()) * (CHECKSUM_MULTIPLIER as int) + bytes.last()) % (
        CHECKSUM_MODULUS as int)) as nat
    }
}

/// The checksum always lies below the modulus.
pub proof fn lemma_checksum_bounded(bytes: Seq<u8>)
    ensures
        spec_checksum(bytes) < CHECKSUM_MODULUS,
    decreases bytes.len(),
{
    if bytes.len() == 0 {
    } else {
        lemma_checksum_bounded(bytes.drop_last());
    }
}

/// Computes the rolling checksum of `bytes`.
pub fn checksum_of_bytes(bytes: &[u8]) -> (r: u64)
    ensures
        r as nat == spec_checksum(bytes@),
        r < CHECKSUM_MODULUS,
{
    let mut sum: u64 = 0;
    let mut i: usize = 0;
    while i < bytes.len()
        invariant
            i <= bytes@.len(),
            sum as nat == spec_checksum(bytes@.take(i as int)),
            sum < CHECKSUM_MODULUS,
        decreases bytes@.len() - i,
    {
        proof {
            assert(bytes@.take(i + 1).drop_last() =~= bytes@.take(i as int));
            assert(bytes@.take(i + 1).last() == bytes@[i as int]);
        }
        sum = (sum * CHECKSUM_MULTIPLIER + bytes[i] as u64) % CHECKSUM_MODULUS;
        i = i + 1;
    }
    proof {
        assert(bytes@.take(bytes@.len() as int) =~= bytes@);
    }
    sum
}

/// True of the characters that may stand in a sanitized body: ASCII letters,
/// ASCII digits, and the underscore.
pub open spec fn is_ident_char(c: char) -> bool {
    let u = c as u32;
    (48 <= u && u <= 57) || (65 <= u && u <= 90) || (97 <= u && u <= 122) || u == 95
}

/// A character kept if legal, otherwise replaced by an underscore.
pub open spec fn spec_sanitize_char(c: char) -> char {
    if is_ident_char(c) {
        c
    } else {
        '_'
    }
}

/// The input with every illegal character replaced one-for-one.
pub open spec fn spec_sanitized_body(s: Seq<char>) -> Seq<char> {
    s.map_values(|c: char| spec_sanitize_char(c))
}

/// Keeps `c` if it is an ASCII letter, ASCII digit, or underscore,
/// otherwise returns an underscore.
pub fn sanitize_char(c: char) -> (r: char)
    ensures
        r == spec_sanitize_char(c),
{
    let u = c as u32;
    if (48 <= u && u <= 57) || (65 <= u && u <= 90) || (97 <= u && u <= 122) || u == 95 {
        c
    } else {
        '_'
    }
}

/// The decimal digit character for a value below ten.
pub open spec fn spec_digit_char(d: nat) -> char
    recommends
        d < 10,
{
    ((48 + d) as u8) as char
}

/// The base-10 rendering of `n`, with no leading zeros and no fixed width.
pub open spec fn spec_decimal(n: nat) -> Seq<char>
    decreases n,
    via spec_decimal_decreases
{
    if n < 10 {
        seq![spec_digit_char(n)]
    } else {
        spec_decimal(n / 10) + seq![spec_digit_char(n % 10)]
    }
}

#[via_fn]
proof fn spec_decimal_decreases(n: nat) {
    if n >= 10 {
        lemma_fundamental_div_mod(n as int, 10);
    }
}

/// Powers of ten.
pub open spec fn pow10(k: nat) -> nat
    decreases k,
{
    if k == 0 {
        1
    } else {
        10 * pow10((k - 1) as nat)
    }
}

/// A value below the `k`-th power of ten renders in at most `k` digits,
/// and every value renders in at least one.
pub proof fn lemma_decimal_len(n: nat, k: nat)
    requires
        1 <= k,
        n < pow10(k),
    ensures
        1 <= spec_decimal(n).len() <= k,
    decreases k,
{
    if n < 10 {
    } else {
        assert(k >= 2) by {
            if k == 1 {
                reveal_with_fuel(pow10, 2);
                assert(pow10(1) == 10);
            }
        }
        assert(10 * (n / 10) <= n) by {
            lemma_fundamental_div_mod(n as int, 10);
        }
        assert(pow10(k) == 10 * pow10((k - 1) as nat));
        lemma_decimal_len(n / 10, (k - 1) as nat);
    }
}

/// Appends the decimal rendering of `n` to `out`.
pub fn push_decimal(n: u64, out: &mut Vec<char>)
    ensures
        final(out)@ == old(out)@ + spec_decimal(n as nat),
    decreases n,
{
    if n < 10 {
        let d: u8 = 48 + (n as u8);
        out.push(d as char);
        proof {
            assert(final(out)@ =~= old(out)@ + spec_decimal(n as nat));
        }
    } else {
        proof {
            lemma_fundamental_div_mod(n as int, 10);
        }
        push_decimal(n / 10, out);
        let d: u8 = 48 + ((n % 10) as u8);
        out.push(d as char);
        proof {
            assert(final(out)@ =~= old(out)@ + spec_decimal(n as nat));
        }
    }
}

/// The decimal checksum portion of the sanitized form of `s`, computed over
/// the UTF-8 bytes of the unsanitized input.
pub open spec fn spec_checksum_digits(s: Seq<char>) -> Seq<char> {
    spec_decimal(spec_checksum(encode_utf8(s)))
}

/// How many body characters the length policy leaves room for.
pub open spec fn spec_body_budget(s: Seq<char>) -> int {
    MAX_NAME_LENGTH - spec_prefix().len() - spec_checksum_digits(s).len()
}

/// The sanitized body, cut from the end so that the whole name fits.
pub open spec fn spec_truncated_body(s: Seq<char>) -> Seq<char> {
    let body = spec_sanitized_body(s);
    if body.len() > spec_body_budget(s) {
        body.take(spec_body_budget(s))
    } else {
        body
    }
}

/// The sanitized form of `s`: prefix, truncated body, then checksum digits.
pub open spec fn spec_sanitize_and_checksum(s: Seq<char>) -> Seq<char> {
    spec_prefix() + spec_truncated_body(s) + spec_checksum_digits(s)
}

/// Relies on `String::push`: appends the given character to the end of the
/// string.
#[verifier::external_body]
pub(crate) fn push_char(s: &mut String, c: char)
    ensures
        final(s)@ == old(s)@.push(c),
{
    s.push(c);
}

/// Maps an arbitrary raw topic name to a stable, bounded, transport-legal
/// identifier: the literal prefix, the input with every character that is not
/// an ASCII letter, digit or underscore replaced by an underscore (truncated
/// from the end as far as the length policy demands), and the decimal
/// checksum of the input's raw bytes.
pub fn sanitize_and_checksum(input: &str) -> (r: String)
    ensures
        r@ == spec_sanitize_and_checksum(input@),
        r@.len() <= 256,
{
    let n = input.unicode_len();
    let mut body: Vec<char> = Vec::new();
    let mut i: usize = 0;
    while i < n
        invariant
            n == input@.len(),
            i <= n,
            body@ == spec_sanitized_body(input@.take(i as int)),
        decreases n - i,
    {
        let c = input.get_char(i);
        body.push(sanitize_char(c));
        proof {
            assert(body@ =~= spec_sanitized_body(input@.take(i + 1)));
        }
        i = i + 1;
    }
    proof {
        assert(input@.take(n as int) =~= input@);
    }
    let sum = checksum_of_bytes(input.as_bytes());
    let mut digits: Vec<char> = Vec::new();
    push_decimal(sum, &mut digits);
    proof {
        reveal_with_fuel(pow10, 11);
        assert(pow10(10) == 10_000_000_000);
        lemma_decimal_len(sum as nat, 10);
    }
    let budget: usize = MAX_NAME_LENGTH - 5 - digits.len();
    if body.len() > budget {
        body.truncate(budget);
    }
    let mut out: Vec<char> = Vec::new();
    out.push('r');
    out.push('o');
    out.push('s');
    out.push('2');
    out.push('_');
    proof {
        assert(out@ =~= spec_prefix());
    }
    out.append(&mut body);
    out.append(&mut digits);
    proof {
        assert(out@ =~= spec_sanitize_and_checksum(input@));
    }
    let mut r = String::new();
    let mut j: usize = 0;
    while j < out.len()
        invariant
            j <= out@.len(),
            r@ == out@.take(j as int),
        decreases out@.len() - j,
    {
        push_char(&mut r, out[j]);
        proof {
            assert(r@ =~= out@.take(j + 1));
        }
        j = j + 1;
    }
    proof {
        assert(out@.take(out@.len() as int) =~= out@);
    }
    r
}

/// Determinism law: the sanitized form is a function of the input characters
/// alone; equal inputs give equal outputs.
pub proof fn lemma_sanitize_deterministic(s1: Seq<char>, s2: Seq<char>)
    requires
        s1 == s2,
    ensures
        spec_sanitize_and_checksum(s1) == spec_sanitize_and_checksum(s2),
{
}

/// Length-bound law: the sanitized form never exceeds 256 characters.
pub proof fn lemma_sanitize_length_bound(s: Seq<char>)
    ensures
        spec_sanitize_and_checksum(s).len() <= 256,
{
    lemma_checksum_bounded(encode_utf8(s));
    reveal_with_fuel(pow10, 11);
    assert(pow10(10) == 10_000_000_000);
    lemma_decimal_len(spec_checksum(encode_utf8(s)), 10);
}

/// Prefix law: the sanitized form always starts with the literal prefix.
pub proof fn lemma_sanitize_prefix(s: Seq<char>)
    ensures
        spec_sanitize_and_checksum(s).len() >= 5,
        spec_sanitize_and_checksum(s).take(5) =~= spec_prefix(),
{
    assert(spec_sanitize_and_checksum(s).take(5) =~= spec_prefix());
}

/// Character-set law: between the prefix and the checksum digits, the
/// sanitized form holds only ASCII letters, ASCII digits and underscores.
pub proof fn lemma_sanitize_body_charset(s: Seq<char>)
    ensures
        forall|i: int|
            5 <= i < spec_sanitize_and_checksum(s).len() - spec_checksum_digits(s).len()
                ==> is_ident_char(#[trigger] spec_sanitize_and_checksum(s)[i]),
{
    lemma_checksum_bounded(encode_utf8(s));
    reveal_with_fuel(pow10, 11);
    assert(pow10(10) == 10_000_000_000);
    lemma_decimal_len(spec_checksum(encode_utf8(s)), 10);
    let r = spec_sanitize_and_checksum(s);
    let body = spec_truncated_body(s);
    assert forall|i: int| 5 <= i < r.len() - spec_checksum_digits(s).len() implies is_ident_char(
        r[i],
    ) by {
        assert(r[i] == body[i - 5]);
        let full = spec_sanitized_body(s);
        if full.len() > spec_body_budget(s) {
            assert(body[i - 5] == full[i - 5]);
        }
        assert(body[i - 5] == spec_sanitize_char(s[i - 5]));
        assert('_' as u32 == 95);
    }
}

/// Checksum-stability law: the sanitized form ends exactly with the decimal
/// rendering of the rolling checksum of the input's UTF-8 bytes, and that
/// rendering is never truncated.
pub proof fn lemma_sanitize_checksum_suffix(s: Seq<char>)
    ensures
        spec_sanitize_and_checksum(s).len() >= spec_checksum_digits(s).len(),
        spec_sanitize_and_checksum(s).skip(
            spec_sanitize_and_checksum(s).len() - spec_checksum_digits(s).len(),
        ) =~= spec_decimal(spec_checksum(encode_utf8(s))),
{
    assert(spec_sanitize_and_checksum(s).skip(
        spec_sanitize_and_checksum(s).len() - spec_checksum_digits(s).len(),
    ) =~= spec_checksum_digits(s));
}

} // verus!
