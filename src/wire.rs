//! The RESP wire grammar as spec functions: what each encoder writes and what
//! each decoder accepts, and the laws that relate the two.

use crate::error::Fault;
use crate::resp::{kind_of_prefix, RespDataKind};
use vstd::prelude::*;
use vstd::utf8::{decode_utf8, encode_utf8, valid_utf8};

verus! {

/// The terminator that closes every wire unit.
pub open spec fn crlf() -> Seq<u8> {
    seq![13u8, 10u8]
}

/// The canonical decimal digits of `n`, with no leading zero but for `0` itself.
pub open spec fn decimal(n: nat) -> Seq<u8>
    decreases n,
{
    if n < 10 {
        seq![(48 + n) as u8]
    } else {
        decimal(n / 10).push((48 + n % 10) as u8)
    }
}

/// The canonical decimal text of `i`, with a leading `-` when it is negative.
pub open spec fn signed_decimal(i: int) -> Seq<u8> {
    if i < 0 {
        seq![45u8] + decimal((-i) as nat)
    } else {
        decimal(i as nat)
    }
}

pub open spec fn enc_bool(b: bool) -> Seq<u8> {
    seq![35u8, if b { 116u8 } else { 102u8 }] + crlf()
}

pub open spec fn enc_integer(i: int) -> Seq<u8> {
    seq![58u8] + signed_decimal(i) + crlf()
}

pub open spec fn enc_big_number(n: nat) -> Seq<u8> {
    seq![40u8] + decimal(n) + crlf()
}

/// A float whose text the caller has already rendered.
pub open spec fn enc_float_text(text: Seq<u8>) -> Seq<u8> {
    seq![44u8] + text + crlf()
}

pub open spec fn enc_bulk(b: Seq<u8>) -> Seq<u8> {
    seq![36u8] + decimal(b.len()) + crlf() + b + crlf()
}

pub open spec fn enc_null() -> Seq<u8> {
    seq![95u8] + crlf()
}

/// An array header; a count of `None` is written `-1` (length not known).
pub open spec fn enc_array_header(len: Option<nat>) -> Seq<u8> {
    seq![42u8] + match len {
        Some(n) => decimal(n),
        None => seq![45u8, 49u8],
    } + crlf()
}

pub open spec fn enc_map_header(n: nat) -> Seq<u8> {
    seq![37u8] + decimal(n) + crlf()
}

/// What precedes the payload of a newtype, tuple or struct variant: a map of
/// one pair whose key is the variant name.
pub open spec fn enc_variant_header(name: Seq<u8>) -> Seq<u8> {
    enc_map_header(1) + enc_bulk(name)
}

pub open spec fn is_digit(b: u8) -> bool {
    48 <= b <= 57
}

/// The bytes that a numeric token may hold: digits, signs, `.`, `e`, `E`.
pub open spec fn is_numeric(b: u8) -> bool {
    is_digit(b) || b == 43 || b == 45 || b == 46 || b == 101 || b == 69
}

/// The byte classes that a scan runs over: numeric bytes, or digits alone.
pub open spec fn in_class(b: u8, numeric: bool) -> bool {
    if numeric {
        is_numeric(b)
    } else {
        is_digit(b)
    }
}

/// The length of the longest prefix of `s` whose bytes are all in the class.
pub open spec fn run_len(s: Seq<u8>, numeric: bool) -> nat
    decreases s.len(),
{
    if s.len() > 0 && in_class(s[0], numeric) {
        1 + run_len(s.drop_first(), numeric)
    } else {
        0
    }
}

/// The number that a sequence of decimal digits denotes.
pub open spec fn digits_value(d: Seq<u8>) -> nat
    decreases d.len(),
{
    if d.len() == 0 {
        0
    } else {
        digits_value(d.drop_last()) * 10 + (d.last() - 48) as nat
    }
}

pub open spec fn all_digits(d: Seq<u8>) -> bool {
    forall|i: int| 0 <= i < d.len() ==> is_digit(#[trigger] d[i])
}

/// One or more digits, read as a number.
pub open spec fn unsigned_token(d: Seq<u8>) -> Option<int> {
    if d.len() > 0 && all_digits(d) {
        Some(digits_value(d) as int)
    } else {
        None
    }
}

/// The integer that a numeric token denotes: an optional `+`, a `-` only
/// where the target is signed, then one or more digits.
pub open spec fn token_value(t: Seq<u8>, signed: bool) -> Option<int> {
    if t.len() > 0 && t[0] == 43 {
        unsigned_token(t.drop_first())
    } else if t.len() > 0 && t[0] == 45 && signed {
        match unsigned_token(t.drop_first()) {
            Some(v) => Some(-v),
            None => None,
        }
    } else {
        unsigned_token(t)
    }
}

/// The integer with the given sign (`true` for negative) and magnitude.
pub open spec fn signed_value(negative: bool, magnitude: u128) -> int {
    if negative {
        -(magnitude as int)
    } else {
        magnitude as int
    }
}

/// Whether `s` fails to start with CRLF, and how.
pub open spec fn crlf_fault(s: Seq<u8>) -> Option<Fault> {
    if s.len() >= 2 && s[0] == 13 && s[1] == 10 {
        None
    } else if s.len() == 0 {
        Some(Fault::End)
    } else {
        Some(Fault::Byte(s[0] as char))
    }
}

/// A length or count: decimal digits whose value fits in `usize`, and the
/// number of bytes they take.
pub open spec fn parse_length(s: Seq<u8>) -> Result<(nat, int), Fault> {
    let n = run_len(s, false);
    if n == s.len() || n == 0 || digits_value(s.take(n as int)) > usize::MAX {
        Err(Fault::Length)
    } else {
        Ok((digits_value(s.take(n as int)), n as int))
    }
}

/// A single expected byte.
pub open spec fn byte_fault(s: Seq<u8>, b: u8) -> Option<Fault> {
    if s.len() == 0 {
        Some(Fault::End)
    } else if s[0] != b {
        Some(Fault::Byte(s[0] as char))
    } else {
        None
    }
}

pub open spec fn parse_bool(s: Seq<u8>) -> Result<(bool, int), Fault> {
    match byte_fault(s, 35) {
        Some(f) => Err(f),
        None => if s.len() == 1 {
            Err(Fault::End)
        } else if s[1] != 116 && s[1] != 102 {
            Err(Fault::Byte(s[1] as char))
        } else {
            match crlf_fault(s.skip(2)) {
                Some(f) => Err(f),
                None => Ok((s[1] == 116, 4)),
            }
        },
    }
}

/// A Null unit: `_` and CRLF.
pub open spec fn parse_null(s: Seq<u8>) -> Result<int, Fault> {
    match byte_fault(s, 95) {
        Some(f) => Err(f),
        None => match crlf_fault(s.drop_first()) {
            Some(f) => Err(f),
            None => Ok(3),
        },
    }
}

/// An optional value: absent (`false`) where a Null unit stands, present
/// where anything else does, in which case nothing is consumed.
pub open spec fn parse_option(s: Seq<u8>) -> Result<(bool, int), Fault> {
    if s.len() > 0 && s[0] == 95 {
        match parse_null(s) {
            Ok(n) => Ok((false, n)),
            Err(f) => Err(f),
        }
    } else {
        Ok((true, 0))
    }
}

/// The tag that the first byte of `s` announces.
pub open spec fn lookahead(s: Seq<u8>) -> Result<RespDataKind, Fault> {
    if s.len() == 0 {
        Err(Fault::End)
    } else {
        match kind_of_prefix(s[0]) {
            None => Err(Fault::Start),
            Some(k) => Ok(k),
        }
    }
}

pub open spec fn is_number_kind(k: RespDataKind) -> bool {
    k == RespDataKind::Integer || k == RespDataKind::Float || k == RespDataKind::BigNumber
}

pub open spec fn is_simple_kind(k: RespDataKind) -> bool {
    k == RespDataKind::SimpleString || k == RespDataKind::SimpleError || is_number_kind(k)
}

pub open spec fn is_bulk_kind(k: RespDataKind) -> bool {
    k == RespDataKind::BulkString || k == RespDataKind::BulkError || k
        == RespDataKind::VerbatimString
}

pub open spec fn is_sequence_kind(k: RespDataKind) -> bool {
    k == RespDataKind::Array || k == RespDataKind::SetData || k == RespDataKind::Push
}

pub open spec fn is_map_kind(k: RespDataKind) -> bool {
    k == RespDataKind::MapData || k == RespDataKind::Attributes
}

/// The numeric token of a number unit: the tag must be Integer, Float or
/// BigNumber, and the token is the longest run of numeric bytes after it,
/// which must end before the input does. Gives the token and the bytes that
/// the tag and the token take.
pub open spec fn number_token(s: Seq<u8>) -> Result<(Seq<u8>, int), Fault> {
    match lookahead(s) {
        Err(f) => Err(f),
        Ok(kind) => if !is_number_kind(kind) {
            Err(Fault::Byte(s[0] as char))
        } else {
            let n = run_len(s.drop_first(), true) as int;
            if n == s.len() - 1 {
                Err(Fault::End)
            } else {
                Ok((s.subrange(1, 1 + n), 1 + n))
            }
        },
    }
}

/// A number unit read as its token, then CRLF.
pub open spec fn parse_number_text(s: Seq<u8>) -> Result<(Seq<u8>, int), Fault> {
    match number_token(s) {
        Err(f) => Err(f),
        Ok((t, k)) => match crlf_fault(s.skip(k)) {
            Some(f) => Err(f),
            None => Ok((t, k + 2)),
        },
    }
}

/// A number unit read as an integer in `[lo, hi]`; a `-` sign is accepted
/// only where `lo` is negative. A token that denotes no integer in range is
/// refused at its first character (`'\0'` for an empty token).
pub open spec fn parse_integer(s: Seq<u8>, lo: int, hi: int) -> Result<(int, int), Fault> {
    match number_token(s) {
        Err(f) => Err(f),
        Ok((t, k)) => match token_value(t, lo < 0) {
            Some(v) if lo <= v <= hi => match crlf_fault(s.skip(k)) {
                Some(f) => Err(f),
                None => Ok((v, k + 2)),
            },
            _ => Err(Fault::Byte((if t.len() > 0 { t[0] } else { 0 }) as char)),
        },
    }
}

/// The first position of CRLF in `s`.
pub open spec fn crlf_index(s: Seq<u8>) -> Option<nat>
    decreases s.len(),
{
    if s.len() < 2 {
        None
    } else if s[0] == 13 && s[1] == 10 {
        Some(0)
    } else {
        match crlf_index(s.drop_first()) {
            Some(i) => Some(i + 1),
            None => None,
        }
    }
}

/// The text of a simple unit (tag not included): everything up to the
/// first CRLF, which must not be empty.
pub open spec fn parse_simple_text(s: Seq<u8>) -> Result<(Seq<u8>, int), Fault> {
    match crlf_index(s) {
        None => Err(Fault::End),
        Some(i) => if i == 0 {
            Err(Fault::End)
        } else {
            Ok((s.take(i as int), i as int + 2))
        },
    }
}

/// The null-string sentinel that may follow a bulk tag.
pub open spec fn null_length() -> Seq<u8> {
    seq![45u8, 49u8, 13u8, 10u8]
}

/// The payload of a bulk unit (tag not included): a length, CRLF, exactly
/// that many bytes, CRLF; or the null sentinel, read as empty.
pub open spec fn parse_bulk_text(s: Seq<u8>) -> Result<(Seq<u8>, int), Fault> {
    if s.len() >= 4 && s.take(4) == null_length() {
        Ok((Seq::empty(), 4))
    } else {
        match parse_length(s) {
            Err(f) => Err(f),
            Ok((len, k)) => match crlf_fault(s.skip(k)) {
                Some(f) => Err(f),
                None => if s.len() < k + 2 + len as int {
                    Err(Fault::End)
                } else {
                    let n = len as int;
                    match crlf_fault(s.skip(k + 2 + n)) {
                        Some(f) => Err(f),
                        None => Ok((s.subrange(k + 2, k + 2 + n), k + 2 + n + 2)),
                    }
                },
            },
        }
    }
}

/// The raw bytes of any unit that reads as a string: the simple family
/// (numbers included, their text verbatim) or the bulk family.
pub open spec fn parse_string_bytes(s: Seq<u8>) -> Result<(Seq<u8>, int), Fault> {
    if s.len() == 0 {
        Err(Fault::End)
    } else {
        match kind_of_prefix(s[0]) {
            None => Err(Fault::Start),
            Some(k) => {
                let r = if is_simple_kind(k) {
                    parse_simple_text(s.drop_first())
                } else if is_bulk_kind(k) {
                    parse_bulk_text(s.drop_first())
                } else {
                    Err(Fault::Byte(s[0] as char))
                };
                match r {
                    Ok((b, n)) => Ok((b, n + 1)),
                    Err(f) => Err(f),
                }
            },
        }
    }
}

/// Framed bytes read as text: they must be UTF-8.
pub open spec fn as_text(r: Result<(Seq<u8>, int), Fault>) -> Result<(Seq<char>, int), Fault> {
    match r {
        Err(f) => Err(f),
        Ok((b, n)) => if valid_utf8(b) {
            Ok((decode_utf8(b), n))
        } else {
            Err(Fault::Utf8)
        },
    }
}

/// A unit read as text.
pub open spec fn parse_string(s: Seq<u8>) -> Result<(Seq<char>, int), Fault> {
    as_text(parse_string_bytes(s))
}

/// A unit read as a single character: text of exactly one character.
pub open spec fn parse_char(s: Seq<u8>) -> Result<(char, int), Fault> {
    match parse_string(s) {
        Err(f) => Err(f),
        Ok((t, n)) => if t.len() != 1 {
            Err(Fault::Malformed)
        } else {
            Ok((t[0], n))
        },
    }
}

/// A bulk string, error or verbatim string unit read as raw bytes.
pub open spec fn parse_bulk_bytes(s: Seq<u8>) -> Result<(Seq<u8>, int), Fault> {
    if s.len() == 0 {
        Err(Fault::End)
    } else {
        match kind_of_prefix(s[0]) {
            None => Err(Fault::Start),
            Some(k) => if is_bulk_kind(k) {
                match parse_bulk_text(s.drop_first()) {
                    Ok((b, n)) => Ok((b, n + 1)),
                    Err(f) => Err(f),
                }
            } else {
                Err(Fault::Byte(s[0] as char))
            },
        }
    }
}

/// The header of an Array, Set or Push unit (`sequence`), or of a Map or
/// Attributes unit: the declared count and the bytes the header takes.
pub open spec fn parse_header(s: Seq<u8>, sequence: bool) -> Result<(nat, int), Fault> {
    match lookahead(s) {
        Err(f) => Err(f),
        Ok(kind) => if (sequence && !is_sequence_kind(kind)) || (!sequence && !is_map_kind(kind)) {
            Err(Fault::Byte(s[0] as char))
        } else {
            match parse_length(s.drop_first()) {
                Err(f) => Err(f),
                Ok((n, k)) => match crlf_fault(s.skip(1 + k)) {
                    Some(f) => Err(f),
                    None => Ok((n, 1 + k + 2)),
                },
            }
        },
    }
}

/// The start of a tagged union: a string unit names a unit variant
/// (`false`); a map of exactly one pair, whose key is read as a string,
/// names a variant whose payload follows (`true`).
pub open spec fn parse_variant(s: Seq<u8>) -> Result<((Seq<char>, bool), int), Fault> {
    if s.len() == 0 {
        Err(Fault::End)
    } else {
        match kind_of_prefix(s[0]) {
            None => Err(Fault::Start),
            Some(k) => if k == RespDataKind::SimpleString || k == RespDataKind::SimpleError
                || is_bulk_kind(k) {
                match parse_string(s) {
                    Ok((name, n)) => Ok(((name, false), n)),
                    Err(f) => Err(f),
                }
            } else if is_map_kind(k) {
                match parse_length(s.drop_first()) {
                    Err(f) => Err(f),
                    Ok((count, k)) => if count != 1 {
                        Err(Fault::Malformed)
                    } else {
                        match crlf_fault(s.skip(1 + k)) {
                            Some(f) => Err(f),
                            None => match parse_string(s.skip(1 + k + 2)) {
                                Ok((name, m)) => Ok(((name, true), 1 + k + 2 + m)),
                                Err(f) => Err(f),
                            },
                        }
                    }
                }
            } else {
                Err(Fault::Byte(s[0] as char))
            },
        }
    }
}

/// A run of bytes that satisfy `p`, followed by one that does not (or by
/// nothing), is exactly as long as the run.
pub proof fn lemma_run_len(a: Seq<u8>, b: Seq<u8>, numeric: bool)
    requires
        forall|i: int| 0 <= i < a.len() ==> in_class(#[trigger] a[i], numeric),
        b.len() == 0 || !in_class(b[0], numeric),
    ensures
        run_len(a + b, numeric) == a.len(),
    decreases a.len(),
{
    if a.len() > 0 {
        assert((a + b).drop_first() =~= a.drop_first() + b);
        assert forall|i: int| 0 <= i < a.drop_first().len() implies in_class(
            #[trigger] a.drop_first()[i],
            numeric,
        ) by {
            assert(a.drop_first()[i] == a[i + 1]);
        }
        lemma_run_len(a.drop_first(), b, numeric);
    } else {
        assert(a + b =~= b);
    }
}

/// The run of `s` that a scan stopped on at `i`.
pub proof fn lemma_run_len_at(s: Seq<u8>, i: int, numeric: bool)
    requires
        0 <= i <= s.len(),
        forall|j: int| 0 <= j < i ==> in_class(#[trigger] s[j], numeric),
        i == s.len() || !in_class(s[i], numeric),
    ensures
        run_len(s, numeric) == i,
{
    assert(s =~= s.take(i) + s.skip(i));
    lemma_run_len(s.take(i), s.skip(i), numeric);
}

pub proof fn lemma_digits_value_push(d: Seq<u8>, c: u8)
    ensures
        digits_value(d.push(c)) == digits_value(d) * 10 + (c - 48) as nat,
{
    assert(d.push(c).drop_last() =~= d);
}

/// A prefix of a digit sequence denotes no more than the whole.
pub proof fn lemma_digits_value_prefix(d: Seq<u8>, i: int)
    requires
        0 <= i <= d.len(),
        all_digits(d),
    ensures
        digits_value(d.take(i)) <= digits_value(d),
    decreases d.len() - i,
{
    if i < d.len() {
        lemma_digits_value_prefix(d, i + 1);
        assert(d.take(i + 1) =~= d.take(i).push(d[i]));
        lemma_digits_value_push(d.take(i), d[i]);
    } else {
        assert(d.take(i) =~= d);
    }
}

/// The canonical digits of `n` are digits, and denote `n`.
pub proof fn lemma_decimal(n: nat)
    ensures
        decimal(n).len() >= 1,
        all_digits(decimal(n)),
        digits_value(decimal(n)) == n,
    decreases n,
{
    if n < 10 {
        let d = decimal(n);
        assert(d.drop_last() =~= Seq::<u8>::empty());
        assert(digits_value(d) == digits_value(d.drop_last()) * 10 + (d.last() - 48) as nat);
    } else {
        lemma_decimal(n / 10);
        lemma_digits_value_push(decimal(n / 10), (48 + n % 10) as u8);
        assert((n / 10) * 10 + n % 10 == n) by (nonlinear_arith);
    }
}

pub open spec fn crlf_at(s: Seq<u8>, i: int) -> bool {
    0 <= i && i + 1 < s.len() && s[i] == 13 && s[i + 1] == 10
}

/// `crlf_index` finds the first CRLF, or none where there is none.
pub proof fn lemma_crlf_index(s: Seq<u8>, i: int)
    requires
        0 <= i,
        forall|j: int| 0 <= j < i ==> !crlf_at(s, j),
        crlf_at(s, i) || i + 1 >= s.len(),
    ensures
        crlf_at(s, i) ==> crlf_index(s) == Some(i as nat),
        !crlf_at(s, i) ==> crlf_index(s) is None,
    decreases i,
{
    if i > 0 && s.len() >= 2 {
        assert(!crlf_at(s, 0));
        let t = s.drop_first();
        assert forall|j: int| 0 <= j < i - 1 implies !crlf_at(t, j) by {
            assert(!crlf_at(s, j + 1));
        }
        if crlf_at(s, i) {
            assert(crlf_at(t, i - 1));
        }
        lemma_crlf_index(t, i - 1);
    }
}

/// The decimal text of an integer is all numeric bytes, and denotes the
/// integer for a target whose signedness admits it.
proof fn lemma_signed_decimal(i: int, signed: bool)
    requires
        i >= 0 || signed,
    ensures
        signed_decimal(i).len() >= 1,
        forall|j: int|
            0 <= j < signed_decimal(i).len() ==> is_numeric(#[trigger] signed_decimal(i)[j]),
        token_value(signed_decimal(i), signed) == Some(i),
{
    if i < 0 {
        let d = decimal((-i) as nat);
        lemma_decimal((-i) as nat);
        let t = signed_decimal(i);
        assert(t.drop_first() =~= d);
        assert forall|j: int| 0 <= j < t.len() implies is_numeric(#[trigger] t[j]) by {
            if j > 0 {
                assert(t[j] == d[j - 1]);
            }
        }
    } else {
        lemma_decimal(i as nat);
        let t = signed_decimal(i);
        assert(is_digit(t[0]));
    }
}

/// A number unit whose token is `text`, followed by anything, reads back as
/// that token.
proof fn lemma_number_unit(tag: u8, text: Seq<u8>, rest: Seq<u8>)
    requires
        kind_of_prefix(tag) matches Some(k) && is_number_kind(k),
        forall|j: int| 0 <= j < text.len() ==> is_numeric(#[trigger] text[j]),
    ensures
        ({
            let s = seq![tag] + text + crlf() + rest;
            &&& lookahead(s) == Ok::<RespDataKind, Fault>(kind_of_prefix(tag)->Some_0)
            &&& run_len(s.drop_first(), true) == text.len()
            &&& s.subrange(1, 1 + text.len() as int) == text
            &&& crlf_fault(s.skip(1 + text.len() as int)) is None
            &&& s.skip(1 + text.len() as int + 2) == rest
        }),
{
    let s = seq![tag] + text + crlf() + rest;
    assert(s.drop_first() =~= text + (crlf() + rest));
    lemma_run_len(text, crlf() + rest, true);
    assert(s.subrange(1, 1 + text.len() as int) =~= text);
    assert(s.skip(1 + text.len() as int) =~= crlf() + rest);
    assert(s.skip(1 + text.len() as int + 2) =~= rest);
}

/// Round trip of a boolean: the unit written for `b` reads back as `b`,
/// whatever follows it.
pub proof fn lemma_round_trip_bool(b: bool, rest: Seq<u8>)
    ensures
        parse_bool(enc_bool(b) + rest) == Ok::<(bool, int), Fault>((b, 4)),
{
    let s = enc_bool(b) + rest;
    assert(s.skip(2) =~= crlf() + rest);
}

/// Only `t` and `f` may follow the Boolean tag: any other byte is refused,
/// as that byte.
pub proof fn lemma_bool_literal(b: u8, rest: Seq<u8>)
    requires
        b != 116 && b != 102,
    ensures
        parse_bool(seq![35u8, b] + rest) == Err::<(bool, int), Fault>(Fault::Byte(b as char)),
{
    assert((seq![35u8, b] + rest)[1] == b);
}

/// Round trip of an integer: the Integer unit written for `i` reads back as
/// `i` into any width that holds it, whatever follows it.
pub proof fn lemma_round_trip_integer(i: int, lo: int, hi: int, rest: Seq<u8>)
    requires
        lo <= i <= hi,
    ensures
        parse_integer(enc_integer(i) + rest, lo, hi) == Ok::<(int, int), Fault>(
            (i, enc_integer(i).len() as int),
        ),
{
    lemma_signed_decimal(i, lo < 0);
    let t = signed_decimal(i);
    lemma_number_unit(58u8, t, rest);
    assert(enc_integer(i) + rest =~= seq![58u8] + t + crlf() + rest);
}

/// Round trip of an unsigned 64-bit value, and the coercion boundary: the
/// BigNumber unit written for `n` reads back as `n` into any integer width
/// that holds it, and fails, at its first digit, in any width that does not.
pub proof fn lemma_round_trip_big_number(n: nat, lo: int, hi: int, rest: Seq<u8>)
    requires
        lo <= 0,
    ensures
        parse_integer(enc_big_number(n) + rest, lo, hi) == if n <= hi {
            Ok::<(int, int), Fault>((n as int, enc_big_number(n).len() as int))
        } else {
            Err(Fault::Byte(decimal(n)[0] as char))
        },
{
    lemma_signed_decimal(n as int, lo < 0);
    let t = decimal(n);
    assert(signed_decimal(n as int) == t);
    lemma_number_unit(40u8, t, rest);
    assert(enc_big_number(n) + rest =~= seq![40u8] + t + crlf() + rest);
}

/// Round trip of a float's text: a Float unit whose text holds only numeric
/// bytes reads back as that text.
pub proof fn lemma_round_trip_float_text(text: Seq<u8>, rest: Seq<u8>)
    requires
        forall|j: int| 0 <= j < text.len() ==> is_numeric(#[trigger] text[j]),
    ensures
        parse_number_text(enc_float_text(text) + rest) == Ok::<(Seq<u8>, int), Fault>(
            (text, enc_float_text(text).len() as int),
        ),
{
    lemma_number_unit(44u8, text, rest);
    assert(enc_float_text(text) + rest =~= seq![44u8] + text + crlf() + rest);
}

/// A length written in decimal, followed by CRLF, reads back.
proof fn lemma_length(n: nat, rest: Seq<u8>)
    ensures
        n <= usize::MAX ==> parse_length(decimal(n) + crlf() + rest) == Ok::<(nat, int), Fault>(
            (n, decimal(n).len() as int),
        ),
        n > usize::MAX ==> parse_length(decimal(n) + crlf() + rest) == Err::<(nat, int), Fault>(
            Fault::Length,
        ),
        (decimal(n) + crlf() + rest).skip(decimal(n).len() as int) == crlf() + rest,
{
    let d = decimal(n);
    let s = d + crlf() + rest;
    lemma_decimal(n);
    assert(s =~= d + (crlf() + rest));
    lemma_run_len(d, crlf() + rest, false);
    assert(s.take(d.len() as int) =~= d);
    assert(s.skip(d.len() as int) =~= crlf() + rest);
}

/// Round trip of bytes as a bulk payload.
proof fn lemma_bulk_text(b: Seq<u8>, rest: Seq<u8>)
    requires
        b.len() <= usize::MAX,
    ensures
        parse_bulk_text(enc_bulk(b).drop_first() + rest) == Ok::<(Seq<u8>, int), Fault>(
            (b, enc_bulk(b).len() - 1),
        ),
{
    let d = decimal(b.len());
    let s = enc_bulk(b).drop_first() + rest;
    assert(s =~= d + crlf() + (b + crlf() + rest));
    lemma_length(b.len(), b + crlf() + rest);
    lemma_decimal(b.len());
    assert(s[0] == d[0]);
    assert(is_digit(d[0]));
    let k = d.len() as int;
    assert(s.skip(k) =~= crlf() + (b + crlf() + rest));
    assert(s.subrange(k + 2, k + 2 + b.len() as int) =~= b);
    assert(s.skip(k + 2 + b.len() as int) =~= crlf() + rest);
}

/// Round trip of text: the Bulk String unit written for the UTF-8 bytes of
/// `chars` reads back as `chars`, whatever follows it.
pub proof fn lemma_round_trip_string(chars: Seq<char>, rest: Seq<u8>)
    requires
        encode_utf8(chars).len() <= usize::MAX,
    ensures
        parse_string(enc_bulk(encode_utf8(chars)) + rest) == Ok::<(Seq<char>, int), Fault>(
            (chars, enc_bulk(encode_utf8(chars)).len() as int),
        ),
{
    let b = encode_utf8(chars);
    let s = enc_bulk(b) + rest;
    lemma_bulk_text(b, rest);
    assert(s.drop_first() =~= enc_bulk(b).drop_first() + rest);
    vstd::utf8::encode_utf8_valid_utf8(chars);
    vstd::utf8::encode_utf8_decode_utf8(chars);
}

/// Round trip of a character: the one-character Bulk String unit written
/// for `c` reads back as `c`, whatever its UTF-8 width and whatever follows.
pub proof fn lemma_round_trip_char(c: char, rest: Seq<u8>)
    ensures
        parse_char(enc_bulk(encode_utf8(seq![c])) + rest) == Ok::<(char, int), Fault>(
            (c, enc_bulk(encode_utf8(seq![c])).len() as int),
        ),
{
    let one = seq![c];
    assert(one.drop_first() =~= Seq::<char>::empty());
    assert(encode_utf8(one.drop_first()) =~= Seq::<u8>::empty());
    assert(encode_utf8(one) =~= vstd::utf8::encode_scalar(c as u32) + encode_utf8(one.drop_first()));
    assert(encode_utf8(one).len() <= 4);
    lemma_round_trip_string(one, rest);
}

/// Round trip of bytes: the Bulk String unit written for any bytes reads
/// back, as raw bytes, as exactly those bytes, whatever follows it.
pub proof fn lemma_round_trip_bytes(b: Seq<u8>, rest: Seq<u8>)
    requires
        b.len() <= usize::MAX,
    ensures
        parse_bulk_bytes(enc_bulk(b) + rest) == Ok::<(Seq<u8>, int), Fault>(
            (b, enc_bulk(b).len() as int),
        ),
{
    let s = enc_bulk(b) + rest;
    lemma_bulk_text(b, rest);
    assert(s.drop_first() =~= enc_bulk(b).drop_first() + rest);
}

/// Round trip of the unit value and of an absent optional: the Null unit
/// reads back as either. (A present unit is written the same way, so it
/// reads back as absent.)
pub proof fn lemma_round_trip_null(rest: Seq<u8>)
    ensures
        parse_null(enc_null() + rest) == Ok::<int, Fault>(3),
        parse_option(enc_null() + rest) == Ok::<(bool, int), Fault>((false, 3)),
{
    assert((enc_null() + rest).drop_first() =~= crlf() + rest);
}

/// A present optional: where the next unit is not Null, the optional is
/// present and nothing is consumed, so the value itself is read next.
pub proof fn lemma_option_present(s: Seq<u8>)
    requires
        s.len() > 0,
        s[0] != 95,
    ensures
        parse_option(s) == Ok::<(bool, int), Fault>((true, 0)),
{
}

/// The null bulk string and the empty bulk string read back alike, as
/// empty text.
pub proof fn lemma_null_bulk_is_empty(rest: Seq<u8>)
    ensures
        parse_string(seq![36u8] + null_length() + rest) == Ok::<(Seq<char>, int), Fault>(
            (Seq::empty(), 5),
        ),
        parse_string(enc_bulk(Seq::empty()) + rest) == Ok::<(Seq<char>, int), Fault>(
            (Seq::empty(), 6),
        ),
{
    let s = seq![36u8] + null_length() + rest;
    assert(s.drop_first().take(4) =~= null_length());
    assert(valid_utf8(Seq::<u8>::empty()));
    assert(decode_utf8(Seq::<u8>::empty()) =~= Seq::<char>::empty());
    lemma_round_trip_string(Seq::empty(), rest);
    assert(encode_utf8(Seq::<char>::empty()) =~= Seq::<u8>::empty());
    assert(decimal(0) =~= seq![48u8]);
}

/// Round trip of a sequence header: an Array header of known count reads
/// back as that count.
pub proof fn lemma_round_trip_seq_header(n: nat, rest: Seq<u8>)
    requires
        n <= usize::MAX,
    ensures
        parse_header(enc_array_header(Some(n)) + rest, true) == Ok::<(nat, int), Fault>(
            (n, enc_array_header(Some(n)).len() as int),
        ),
{
    let s = enc_array_header(Some(n)) + rest;
    assert(s.drop_first() =~= decimal(n) + crlf() + rest);
    lemma_length(n, rest);
    assert(s.skip(1 + decimal(n).len() as int) =~= crlf() + rest);
}

/// Round trip of a map header: a Map header reads back as its pair count.
pub proof fn lemma_round_trip_map_header(n: nat, rest: Seq<u8>)
    requires
        n <= usize::MAX,
    ensures
        parse_header(enc_map_header(n) + rest, false) == Ok::<(nat, int), Fault>(
            (n, enc_map_header(n).len() as int),
        ),
{
    let s = enc_map_header(n) + rest;
    assert(s.drop_first() =~= decimal(n) + crlf() + rest);
    lemma_length(n, rest);
    assert(s.skip(1 + decimal(n).len() as int) =~= crlf() + rest);
}

/// Round trip of a unit variant: its name as a Bulk String reads back as
/// that name, with no payload.
pub proof fn lemma_round_trip_unit_variant(name: Seq<char>, rest: Seq<u8>)
    requires
        encode_utf8(name).len() <= usize::MAX,
    ensures
        parse_variant(enc_bulk(encode_utf8(name)) + rest) == Ok::<
            ((Seq<char>, bool), int),
            Fault,
        >(((name, false), enc_bulk(encode_utf8(name)).len() as int)),
{
    lemma_round_trip_string(name, rest);
}

/// Round trip of a variant with a payload: the one-pair map header and the
/// name read back as that name, with the payload next.
pub proof fn lemma_round_trip_variant(name: Seq<char>, rest: Seq<u8>)
    requires
        encode_utf8(name).len() <= usize::MAX,
    ensures
        parse_variant(enc_variant_header(encode_utf8(name)) + rest) == Ok::<
            ((Seq<char>, bool), int),
            Fault,
        >(((name, true), enc_variant_header(encode_utf8(name)).len() as int)),
{
    let b = encode_utf8(name);
    let s = enc_variant_header(b) + rest;
    let tail = enc_bulk(b) + rest;
    assert(s.drop_first() =~= decimal(1) + crlf() + tail);
    lemma_length(1, tail);
    assert(decimal(1) =~= seq![49u8]);
    assert(s.skip(2int) =~= crlf() + tail);
    assert(s.skip(4int) =~= tail);
    lemma_round_trip_string(name, rest);
}

/// A tagged union framed as a map of any pair count but one is malformed,
/// whatever follows and whatever variant the consumer expects.
pub proof fn lemma_enum_framing(n: nat, rest: Seq<u8>)
    requires
        n != 1,
    ensures
        parse_variant(enc_map_header(n) + rest) is Err,
        n <= usize::MAX ==> parse_variant(enc_map_header(n) + rest) == Err::<
            ((Seq<char>, bool), int),
            Fault,
        >(Fault::Malformed),
        n > usize::MAX ==> parse_variant(enc_map_header(n) + rest) == Err::<
            ((Seq<char>, bool), int),
            Fault,
        >(Fault::Length),
{
    let s = enc_map_header(n) + rest;
    assert(s.drop_first() =~= decimal(n) + crlf() + rest);
    lemma_length(n, rest);
}

} // verus!
