use crate::error::{Error, Fault};
use crate::resp::{reading_of, Reading, RespDataKind};
use crate::text::{char_text, string_from_utf8};
use crate::wire::{
    all_digits, as_text, byte_fault, crlf_at, crlf_fault, digits_value, in_class, is_digit,
    is_simple_kind, lemma_crlf_index, lemma_digits_value_prefix, lemma_digits_value_push,
    lemma_run_len_at, lookahead, null_length, number_token, parse_bool, parse_bulk_bytes,
    parse_bulk_text, parse_char, parse_header, parse_integer, parse_length, parse_null,
    parse_number_text, parse_option, parse_simple_text, parse_string, parse_string_bytes,
    parse_variant, run_len, signed_value, token_value,
};
use vstd::prelude::*;
use vstd::slice::{slice_subrange, slice_to_vec};
use vstd::string::StrSliceExecFns;
use vstd::utf8::{decode_utf8, valid_utf8};

verus! {

/// What a decoding call amounts to, with the error told by its kind.
pub open spec fn outcome<T>(r: Result<T, Error>) -> Result<T, Fault> {
    match r {
        Ok(v) => Ok(v),
        Err(e) => Err(e.fault()),
    }
}

/// The decode engine: a cursor over borrowed input that only moves forward.
///
/// Each `deserialize_*` call reads one unit of the shape the consumer
/// expects, as the grammar of the `wire` module gives it, and fails with the
/// first fault found. An engine that failed is not used again.
pub struct Deserializer<'de> {
    input: &'de [u8],
    pos: usize,
}

impl<'de> Deserializer<'de> {
    /// The cursor lies within its input.
    pub closed spec fn wf(&self) -> bool {
        self.pos <= self.input@.len()
    }

    /// The input not yet consumed.
    pub closed spec fn rest(&self) -> Seq<u8> {
        self.input@.skip(self.pos as int)
    }

    /// The cursor moved `n` bytes forward over the same input.
    pub closed spec fn moved(self, before: Self, n: int) -> bool {
        self.input == before.input && self.pos == before.pos + n
    }

    /// Against the engine as it was `before`: where `expect` is a unit taking
    /// `n` bytes, the call returned its value and moved over those bytes;
    /// where `expect` is a fault, the call failed with it.
    pub open spec fn stepped<T>(
        self,
        before: Self,
        expect: Result<(T, int), Fault>,
        got: Result<T, Fault>,
    ) -> bool {
        &&& self.wf()
        &&& match expect {
            Ok((v, n)) => got == Ok::<T, Fault>(v) && 0 <= n <= before.rest().len() && self.rest()
                == before.rest().skip(n) && self.moved(before, n),
            Err(f) => got == Err::<T, Fault>(f),
        }
    }

    /// An engine that reads `input` from its start.
    pub fn new(input: &'de [u8]) -> (d: Self)
        ensures
            d.wf(),
            d.rest() == input@,
    {
        let d = Deserializer { input, pos: 0 };
        assert(d.rest() =~= input@);
        d
    }

    /// Moves over `n` bytes.
    fn advance(&mut self, n: usize)
        requires
            old(self).wf(),
            n <= old(self).rest().len(),
        ensures
            final(self).wf(),
            final(self).rest() == old(self).rest().skip(n as int),
            final(self).input == old(self).input,
            final(self).pos == old(self).pos + n,
    {
        let len = self.input.len();
        assert(old(self).rest().len() == len - self.pos);
        self.pos = self.pos + n;
        assert(self.rest() =~= old(self).rest().skip(n as int));
    }

    /// The tag that the next byte announces, without consuming it.
    fn lookahead(&self) -> (r: Result<RespDataKind, Error>)
        requires
            self.wf(),
        ensures
            outcome(r) == lookahead(self.rest()),
    {
        if self.pos >= self.input.len() {
            return Err(Error::UnexpectedEnd);
        }
        match RespDataKind::from_prefix_bytes(self.input[self.pos]) {
            Some(k) => Ok(k),
            None => Err(Error::UnrecognizedStart),
        }
    }

    /// Consumes one byte.
    fn next_byte(&mut self) -> (r: Result<u8, Error>)
        requires
            old(self).wf(),
        ensures
            final(self).stepped(
                *old(self),
                if old(self).rest().len() > 0 {
                    Ok((old(self).rest()[0], 1))
                } else {
                    Err(Fault::End)
                },
                outcome(r),
            ),
    {
        if self.pos < self.input.len() {
            let b = self.input[self.pos];
            self.advance(1);
            Ok(b)
        } else {
            Err(Error::UnexpectedEnd)
        }
    }

    /// Consumes the next byte, which must be `expected`.
    fn expect_byte(&mut self, expected: u8) -> (r: Result<(), Error>)
        requires
            old(self).wf(),
        ensures
            final(self).stepped(
                *old(self),
                match byte_fault(old(self).rest(), expected) {
                    None => Ok(((), 1)),
                    Some(f) => Err(f),
                },
                outcome(r),
            ),
            r matches Err(Error::UnexpectedByte { expected: x, .. }) ==> x@ == seq![
                expected as char,
            ],
    {
        let first = self.next_byte()?;
        if first == expected {
            Ok(())
        } else {
            let text = char_text(expected as char);
            Err(Error::unexpected_byte(text.as_str(), first))
        }
    }

    /// Consumes CRLF.
    fn expect_crlf(&mut self) -> (r: Result<(), Error>)
        requires
            old(self).wf(),
        ensures
            final(self).stepped(
                *old(self),
                match crlf_fault(old(self).rest()) {
                    None => Ok(((), 2)),
                    Some(f) => Err(f),
                },
                outcome(r),
            ),
            r matches Err(Error::UnexpectedByte { expected: x, .. }) ==> x@ == seq!['\r', '\n'],
    {
        let n = self.input.len();
        if n - self.pos >= 2 && self.input[self.pos] == 13 && self.input[self.pos + 1] == 10 {
            self.advance(2);
            Ok(())
        } else if self.pos == n {
            Err(Error::UnexpectedEnd)
        } else {
            proof {
                reveal_strlit("\r\n");
            }
            Err(Error::unexpected_byte("\r\n", self.input[self.pos]))
        }
    }

    /// The index where the run of bytes of the class that starts at the
    /// cursor ends.
    fn scan(&self, numeric: bool) -> (end: usize)
        requires
            self.wf(),
        ensures
            self.pos <= end <= self.input@.len(),
            end - self.pos == run_len(self.rest(), numeric),
    {
        let mut i = self.pos;
        while i < self.input.len() && Self::in_class(self.input[i], numeric)
            invariant
                self.wf(),
                self.pos <= i <= self.input@.len(),
                forall|j: int| self.pos <= j < i ==> in_class(#[trigger] self.input@[j], numeric),
            decreases self.input@.len() - i,
        {
            i = i + 1;
        }
        proof {
            let s = self.rest();
            assert forall|j: int| 0 <= j < i - self.pos implies in_class(#[trigger] s[j], numeric) by {
                assert(s[j] == self.input@[self.pos + j]);
            }
            lemma_run_len_at(s, i - self.pos, numeric);
        }
        i
    }

    fn in_class(b: u8, numeric: bool) -> (r: bool)
        ensures
            r == in_class(b, numeric),
    {
        let digit = 48 <= b && b <= 57;
        if numeric {
            digit || b == 43 || b == 45 || b == 46 || b == 101 || b == 69
        } else {
            digit
        }
    }

    /// The number that the digits in `[start, end)` denote, or `None` where
    /// it exceeds `limit`.
    fn digits_value(&self, start: usize, end: usize, limit: u128) -> (r: Option<u128>)
        requires
            start <= end <= self.input@.len(),
            all_digits(self.input@.subrange(start as int, end as int)),
        ensures
            match r {
                Some(v) => v == digits_value(self.input@.subrange(start as int, end as int)) && v
                    <= limit,
                None => digits_value(self.input@.subrange(start as int, end as int)) > limit,
            },
    {
        let ghost d = self.input@.subrange(start as int, end as int);
        let mut v: u128 = 0;
        let mut i = start;
        while i < end
            invariant
                start <= i <= end <= self.input@.len(),
                d == self.input@.subrange(start as int, end as int),
                all_digits(d),
                v == digits_value(d.take(i - start)),
                v <= limit,
            decreases end - i,
        {
            let ghost k: int = i - start;
            proof {
                assert(d[k] == self.input@[i as int]);
                assert(d.take(k + 1) =~= d.take(k).push(d[k]));
                lemma_digits_value_push(d.take(k), d[k]);
                assert(is_digit(d[k]));
            }
            let c = self.input[i];
            let digit = (c - 48) as u128;
            let next = match v.checked_mul(10) {
                Some(m) => m.checked_add(digit),
                None => None,
            };
            match next {
                Some(n) if n <= limit => {
                    v = n;
                },
                _ => {
                    proof {
                        lemma_digits_value_prefix(d, k + 1);
                    }
                    return None;
                },
            }
            i = i + 1;
        }
        assert(d.take(end - start) =~= d);
        Some(v)
    }

    /// The bytes in `[start, end)` as a vector.
    fn copy_range(&self, start: usize, end: usize) -> (v: Vec<u8>)
        requires
            start <= end <= self.input@.len(),
        ensures
            v@ == self.input@.subrange(start as int, end as int),
    {
        slice_to_vec(slice_subrange(self.input, start, end))
    }

    /// The integer that the token in `[start, end)` denotes, for a target of
    /// the given signedness, as a sign (`true` for `-`) and a magnitude;
    /// `None` where it denotes none, or one whose magnitude exceeds
    /// `u128::MAX`.
    fn token_value(&self, start: usize, end: usize, signed: bool) -> (r: Option<(bool, u128)>)
        requires
            start <= end <= self.input@.len(),
        ensures
            match r {
                Some((negative, m)) => token_value(
                    self.input@.subrange(start as int, end as int),
                    signed,
                ) == Some(signed_value(negative, m)),
                None => match token_value(self.input@.subrange(start as int, end as int), signed) {
                    None => true,
                    Some(v) => v > u128::MAX || v < -(u128::MAX as int),
                },
            },
    {
        let ghost t = self.input@.subrange(start as int, end as int);
        let mut i = start;
        let mut negative = false;
        if i < end && self.input[i] == 43 {
            i = i + 1;
        } else if i < end && self.input[i] == 45 && signed {
            negative = true;
            i = i + 1;
        }
        let ghost d = self.input@.subrange(i as int, end as int);
        assert(i > start ==> d =~= t.drop_first());
        assert(i == start ==> d =~= t);
        let mut j = i;
        while j < end && Self::in_class(self.input[j], false)
            invariant
                i <= j <= end <= self.input@.len(),
                forall|k: int| i <= k < j ==> is_digit(#[trigger] self.input@[k]),
            decreases end - j,
        {
            j = j + 1;
        }
        if j < end || i == end {
            assert(j < end ==> !is_digit(d[j - i]));
            return None;
        }
        assert(all_digits(d)) by {
            assert forall|k: int| 0 <= k < d.len() implies is_digit(#[trigger] d[k]) by {
                assert(d[k] == self.input@[i + k]);
            }
        }
        match self.digits_value(i, end, u128::MAX) {
            Some(m) => Some((negative, m)),
            None => None,
        }
    }

    /// Consumes the tag of a number unit and finds its token, which it
    /// leaves unconsumed: the token lies in `[start, end)`, starting at the
    /// cursor.
    fn number_token(&mut self) -> (r: Result<(usize, usize), Error>)
        requires
            old(self).wf(),
        ensures
            final(self).wf(),
            match number_token(old(self).rest()) {
                Ok((t, k)) => r matches Ok((start, end)) && final(self).moved(*old(self), 1)
                    && start == final(self).pos && end == old(self).pos + k && end
                    < final(self).input@.len() && t == final(self).input@.subrange(
                    start as int,
                    end as int,
                ) && final(self).rest() == old(self).rest().drop_first(),
                Err(f) => r matches Err(e) && e.fault() == f,
            },
    {
        let ghost s = self.rest();
        let kind = self.lookahead()?;
        let first = self.input[self.pos];
        if !(kind == RespDataKind::Integer || kind == RespDataKind::Float || kind
            == RespDataKind::BigNumber) {
            return Err(
                Error::unexpected_byte("An integer (:), float (,), or big number (() prefix", first),
            );
        }
        self.advance(1);
        assert(self.rest() =~= s.drop_first());
        let start = self.pos;
        let end = self.scan(true);
        if end == self.input.len() {
            return Err(Error::UnexpectedEnd);
        }
        assert(s.subrange(1, 1 + (end - start)) =~= self.input@.subrange(start as int, end as int));
        Ok((start, end))
    }

    /// Consumes an Integer, Float or BigNumber unit whose token denotes an
    /// integer in `[-min_magnitude, max]`, and hands it back as a sign and a
    /// magnitude.
    fn parse_number(&mut self, min_magnitude: u128, max: u128) -> (r: Result<(bool, u128), Error>)
        requires
            old(self).wf(),
        ensures
            final(self).stepped(
                *old(self),
                parse_integer(old(self).rest(), -(min_magnitude as int), max as int),
                match r {
                    Ok((negative, m)) => Ok(signed_value(negative, m)),
                    Err(e) => Err(e.fault()),
                },
            ),
            r matches Ok((negative, m)) ==> (if negative {
                m <= min_magnitude
            } else {
                m <= max
            }),
    {
        let ghost s = self.rest();
        let (start, end) = self.number_token()?;
        let found = if end > start {
            self.input[start]
        } else {
            0
        };
        let value = self.token_value(start, end, min_magnitude > 0);
        let (negative, m) = match value {
            Some(v) => v,
            None => (false, 0),
        };
        if value.is_none() || (negative && m > min_magnitude) || (!negative && m > max) {
            return Err(Error::unexpected_byte("A valid integer string", found));
        }
        self.advance(end - start);
        assert(self.rest() =~= s.skip(1 + (end - start)));
        self.expect_crlf()?;
        assert(self.rest() =~= s.skip(1 + (end - start) + 2));
        Ok((negative, m))
    }

    /// Consumes a Float, Integer or BigNumber unit and hands back its token
    /// as text, for the caller to read as a floating-point number.
    pub fn deserialize_float_text(&mut self) -> (r: Result<String, Error>)
        requires
            old(self).wf(),
        ensures
            final(self).stepped(
                *old(self),
                as_text(parse_number_text(old(self).rest())),
                match r {
                    Ok(v) => Ok(v@),
                    Err(e) => Err(e.fault()),
                },
            ),
    {
        let ghost s = self.rest();
        let (start, end) = self.number_token()?;
        let token = self.copy_range(start, end);
        self.advance(end - start);
        assert(self.rest() =~= s.skip(1 + (end - start)));
        self.expect_crlf()?;
        assert(self.rest() =~= s.skip(1 + (end - start) + 2));
        match string_from_utf8(token) {
            Some(text) => Ok(text),
            None => Err(Error::InvalidUtf8),
        }
    }

    /// Consumes the text of a simple unit, its tag already consumed.
    fn parse_simple_string(&mut self) -> (r: Result<String, Error>)
        requires
            old(self).wf(),
        ensures
            final(self).stepped(
                *old(self),
                as_text(parse_simple_text(old(self).rest())),
                match r {
                    Ok(v) => Ok(v@),
                    Err(e) => Err(e.fault()),
                },
            ),
    {
        let ghost s = self.rest();
        let n = self.input.len();
        let start = self.pos;
        let mut i = start;
        while n - i >= 2 && !(self.input[i] == 13 && self.input[i + 1] == 10)
            invariant
                self.wf(),
                start == self.pos,
                n == self.input@.len(),
                s == self.rest(),
                start <= i <= n,
                forall|j: int| 0 <= j < i - start ==> !crlf_at(s, j),
            decreases n - i,
        {
            assert(!crlf_at(s, i - start));
            i = i + 1;
        }
        proof {
            if n - i >= 2 {
                assert(crlf_at(s, i - start));
            }
            lemma_crlf_index(s, i - start);
        }
        if n - i < 2 || i == start {
            return Err(Error::UnexpectedEnd);
        }
        let bytes = self.copy_range(start, i);
        assert(bytes@ =~= s.take(i - start));
        self.advance(i - start + 2);
        match string_from_utf8(bytes) {
            Some(text) => Ok(text),
            None => Err(Error::InvalidUtf8),
        }
    }

    /// Consumes the payload of a bulk unit, its tag already consumed, as
    /// raw bytes.
    fn parse_bulk_payload(&mut self) -> (r: Result<Vec<u8>, Error>)
        requires
            old(self).wf(),
        ensures
            final(self).stepped(
                *old(self),
                parse_bulk_text(old(self).rest()),
                match r {
                    Ok(v) => Ok(v@),
                    Err(e) => Err(e.fault()),
                },
            ),
    {
        let ghost s = self.rest();
        let p = self.pos;
        if self.input.len() - p >= 4 && self.input[p] == 45 && self.input[p + 1] == 49
            && self.input[p + 2] == 13 && self.input[p + 3] == 10 {
            assert(s.take(4) =~= null_length());
            self.advance(4);
            let empty: Vec<u8> = Vec::new();
            assert(empty@ =~= Seq::<u8>::empty());
            return Ok(empty);
        }
        assert(!(s.len() >= 4 && s.take(4) == null_length())) by {
            if s.len() >= 4 && s.take(4) == null_length() {
                assert(s.take(4)[0] == s[0]);
                assert(s.take(4)[1] == s[1]);
                assert(s.take(4)[2] == s[2]);
                assert(s.take(4)[3] == s[3]);
            }
        }
        let length = self.expect_length()?;
        let ghost k = self.pos - p;
        self.expect_crlf()?;
        assert(self.rest() =~= s.skip(k + 2));
        if self.input.len() - self.pos < length {
            return Err(Error::UnexpectedEnd);
        }
        let start = self.pos;
        let data = self.copy_range(start, start + length);
        assert(data@ =~= s.subrange(k + 2, k + 2 + length));
        self.advance(length);
        assert(self.rest() =~= s.skip(k + 2 + length));
        self.expect_crlf()?;
        assert(self.rest() =~= s.skip(k + 2 + length + 2));
        Ok(data)
    }

    /// Consumes the payload of a bulk unit, its tag already consumed, as text.
    fn parse_bulk_string(&mut self) -> (r: Result<String, Error>)
        requires
            old(self).wf(),
        ensures
            final(self).stepped(
                *old(self),
                as_text(parse_bulk_text(old(self).rest())),
                match r {
                    Ok(v) => Ok(v@),
                    Err(e) => Err(e.fault()),
                },
            ),
    {
        let data = self.parse_bulk_payload()?;
        match string_from_utf8(data) {
            Some(text) => Ok(text),
            None => Err(Error::InvalidUtf8),
        }
    }

    /// Consumes any unit that reads as text: a simple string or error, a
    /// number (its token verbatim), or a bulk string, error or verbatim string.
    fn parse_string(&mut self) -> (r: Result<String, Error>)
        requires
            old(self).wf(),
        ensures
            final(self).stepped(
                *old(self),
                parse_string(old(self).rest()),
                match r {
                    Ok(v) => Ok(v@),
                    Err(e) => Err(e.fault()),
                },
            ),
    {
        let ghost s = self.rest();
        let first = self.next_byte()?;
        assert(self.rest() =~= s.drop_first());
        let kind = match RespDataKind::from_prefix_bytes(first) {
            Some(k) => k,
            None => {
                return Err(Error::UnrecognizedStart);
            },
        };
        let r = if kind == RespDataKind::SimpleString || kind == RespDataKind::SimpleError || kind
            == RespDataKind::Integer || kind == RespDataKind::BigNumber || kind
            == RespDataKind::Float {
            self.parse_simple_string()
        } else if kind == RespDataKind::BulkString || kind == RespDataKind::BulkError || kind
            == RespDataKind::VerbatimString {
            self.parse_bulk_string()
        } else {
            Err(Error::unexpected_byte("A string or number prefix", first))
        };
        proof {
            if r is Ok {
                let b = if is_simple_kind(kind) {
                    parse_simple_text(s.drop_first())
                } else {
                    parse_bulk_text(s.drop_first())
                };
                let n = b->Ok_0.1;
                assert(s.drop_first().skip(n) =~= s.skip(n + 1));
            }
        }
        r
    }

    /// The tag of the next unit, without consuming anything; a consumer
    /// that accepts any shape dispatches on it.
    pub fn peek_kind(&self) -> (r: Result<RespDataKind, Error>)
        requires
            self.wf(),
        ensures
            outcome(r) == lookahead(self.rest()),
    {
        self.lookahead()
    }

    /// How the next unit is read where any shape is accepted, by its tag;
    /// nothing is consumed. The consumer then makes the matching call.
    pub fn deserialize_any(&self) -> (r: Result<Reading, Error>)
        requires
            self.wf(),
        ensures
            outcome(r) == match lookahead(self.rest()) {
                Ok(k) => Ok(reading_of(k)),
                Err(f) => Err(f),
            },
    {
        let kind = self.lookahead()?;
        Ok(kind.reading())
    }

    /// Consumes a Boolean unit: `#t` or `#f`, then CRLF.
    pub fn deserialize_bool(&mut self) -> (r: Result<bool, Error>)
        requires
            old(self).wf(),
        ensures
            final(self).stepped(*old(self), parse_bool(old(self).rest()), outcome(r)),
    {
        let ghost s = self.rest();
        self.expect_byte(35)?;
        let b = self.next_byte()?;
        let value = if b == 116 {
            true
        } else if b == 102 {
            false
        } else {
            return Err(Error::unexpected_byte("One of `t` or `f`", b));
        };
        assert(self.rest() =~= s.skip(2));
        self.expect_crlf()?;
        assert(self.rest() =~= s.skip(4));
        Ok(value)
    }

    /// Consumes a number unit as an `i8`.
    pub fn deserialize_i8(&mut self) -> (r: Result<i8, Error>)
        requires
            old(self).wf(),
        ensures
            final(self).stepped(
                *old(self),
                parse_integer(old(self).rest(), i8::MIN as int, i8::MAX as int),
                match r {
                    Ok(v) => Ok(v as int),
                    Err(e) => Err(e.fault()),
                },
            ),
    {
        let (negative, m) = self.parse_number(128, i8::MAX as u128)?;
        Ok(if negative {
            (0 - m as i128) as i8
        } else {
            m as i8
        })
    }

    /// Consumes a number unit as an `i16`.
    pub fn deserialize_i16(&mut self) -> (r: Result<i16, Error>)
        requires
            old(self).wf(),
        ensures
            final(self).stepped(
                *old(self),
                parse_integer(old(self).rest(), i16::MIN as int, i16::MAX as int),
                match r {
                    Ok(v) => Ok(v as int),
                    Err(e) => Err(e.fault()),
                },
            ),
    {
        let (negative, m) = self.parse_number(32768, i16::MAX as u128)?;
        Ok(if negative {
            (0 - m as i128) as i16
        } else {
            m as i16
        })
    }

    /// Consumes a number unit as an `i32`.
    pub fn deserialize_i32(&mut self) -> (r: Result<i32, Error>)
        requires
            old(self).wf(),
        ensures
            final(self).stepped(
                *old(self),
                parse_integer(old(self).rest(), i32::MIN as int, i32::MAX as int),
                match r {
                    Ok(v) => Ok(v as int),
                    Err(e) => Err(e.fault()),
                },
            ),
    {
        let (negative, m) = self.parse_number(2147483648, i32::MAX as u128)?;
        Ok(if negative {
            (0 - m as i128) as i32
        } else {
            m as i32
        })
    }

    /// Consumes a number unit as an `i64`.
    pub fn deserialize_i64(&mut self) -> (r: Result<i64, Error>)
        requires
            old(self).wf(),
        ensures
            final(self).stepped(
                *old(self),
                parse_integer(old(self).rest(), i64::MIN as int, i64::MAX as int),
                match r {
                    Ok(v) => Ok(v as int),
                    Err(e) => Err(e.fault()),
                },
            ),
    {
        let (negative, m) = self.parse_number(9223372036854775808, i64::MAX as u128)?;
        Ok(if negative {
            (0 - m as i128) as i64
        } else {
            m as i64
        })
    }

    /// Consumes a number unit as a `u8`.
    pub fn deserialize_u8(&mut self) -> (r: Result<u8, Error>)
        requires
            old(self).wf(),
        ensures
            final(self).stepped(
                *old(self),
                parse_integer(old(self).rest(), 0, u8::MAX as int),
                match r {
                    Ok(v) => Ok(v as int),
                    Err(e) => Err(e.fault()),
                },
            ),
    {
        let (_, m) = self.parse_number(0, u8::MAX as u128)?;
        Ok(m as u8)
    }

    /// Consumes a number unit as a `u16`.
    pub fn deserialize_u16(&mut self) -> (r: Result<u16, Error>)
        requires
            old(self).wf(),
        ensures
            final(self).stepped(
                *old(self),
                parse_integer(old(self).rest(), 0, u16::MAX as int),
                match r {
                    Ok(v) => Ok(v as int),
                    Err(e) => Err(e.fault()),
                },
            ),
    {
        let (_, m) = self.parse_number(0, u16::MAX as u128)?;
        Ok(m as u16)
    }

    /// Consumes a number unit as a `u32`.
    pub fn deserialize_u32(&mut self) -> (r: Result<u32, Error>)
        requires
            old(self).wf(),
        ensures
            final(self).stepped(
                *old(self),
                parse_integer(old(self).rest(), 0, u32::MAX as int),
                match r {
                    Ok(v) => Ok(v as int),
                    Err(e) => Err(e.fault()),
                },
            ),
    {
        let (_, m) = self.parse_number(0, u32::MAX as u128)?;
        Ok(m as u32)
    }

    /// Consumes a number unit as a `u64`.
    pub fn deserialize_u64(&mut self) -> (r: Result<u64, Error>)
        requires
            old(self).wf(),
        ensures
            final(self).stepped(
                *old(self),
                parse_integer(old(self).rest(), 0, u64::MAX as int),
                match r {
                    Ok(v) => Ok(v as int),
                    Err(e) => Err(e.fault()),
                },
            ),
    {
        let (_, m) = self.parse_number(0, u64::MAX as u128)?;
        Ok(m as u64)
    }

    /// Consumes a number unit as an `i128`.
    pub fn deserialize_i128(&mut self) -> (r: Result<i128, Error>)
        requires
            old(self).wf(),
        ensures
            final(self).stepped(
                *old(self),
                parse_integer(old(self).rest(), i128::MIN as int, i128::MAX as int),
                match r {
                    Ok(v) => Ok(v as int),
                    Err(e) => Err(e.fault()),
                },
            ),
    {
        let (negative, m) = self.parse_number(0x8000_0000_0000_0000_0000_0000_0000_0000, i128::MAX as u128)?;
        Ok(if !negative {
            m as i128
        } else if m == 0x8000_0000_0000_0000_0000_0000_0000_0000 {
            i128::MIN
        } else {
            0 - m as i128
        })
    }

    /// Consumes a number unit as a `u128`.
    pub fn deserialize_u128(&mut self) -> (r: Result<u128, Error>)
        requires
            old(self).wf(),
        ensures
            final(self).stepped(
                *old(self),
                parse_integer(old(self).rest(), 0, u128::MAX as int),
                match r {
                    Ok(v) => Ok(v as int),
                    Err(e) => Err(e.fault()),
                },
            ),
    {
        let (_, m) = self.parse_number(0, u128::MAX)?;
        Ok(m)
    }

    /// Consumes a unit that reads as text of exactly one character, as a `char`.
    pub fn deserialize_char(&mut self) -> (r: Result<char, Error>)
        requires
            old(self).wf(),
        ensures
            final(self).stepped(*old(self), parse_char(old(self).rest()), outcome(r)),
    {
        let text = self.parse_string()?;
        let count = text.as_str().unicode_len();
        if count > 1 {
            return Err(Error::DeserializeError("Expected a single character string".to_string()));
        }
        if count == 0 {
            return Err(
                Error::DeserializeError("String is empty, expected a single character".to_string()),
            );
        }
        Ok(text.as_str().get_char(0))
    }

    /// Consumes a unit that reads as text: a simple string or error, a
    /// number (its token verbatim), or a bulk string, error or verbatim string.
    pub fn deserialize_string(&mut self) -> (r: Result<String, Error>)
        requires
            old(self).wf(),
        ensures
            final(self).stepped(
                *old(self),
                parse_string(old(self).rest()),
                match r {
                    Ok(v) => Ok(v@),
                    Err(e) => Err(e.fault()),
                },
            ),
    {
        self.parse_string()
    }

    /// The same as [`Deserializer::deserialize_string`].
    pub fn deserialize_str(&mut self) -> (r: Result<String, Error>)
        requires
            old(self).wf(),
        ensures
            final(self).stepped(
                *old(self),
                parse_string(old(self).rest()),
                match r {
                    Ok(v) => Ok(v@),
                    Err(e) => Err(e.fault()),
                },
            ),
    {
        self.parse_string()
    }

    /// A struct field name or variant name: read as text.
    pub fn deserialize_identifier(&mut self) -> (r: Result<String, Error>)
        requires
            old(self).wf(),
        ensures
            final(self).stepped(
                *old(self),
                parse_string(old(self).rest()),
                match r {
                    Ok(v) => Ok(v@),
                    Err(e) => Err(e.fault()),
                },
            ),
    {
        self.parse_string()
    }

    /// Consumes a bulk string, error or verbatim string unit and hands back
    /// its payload as raw bytes, whatever they hold.
    pub fn deserialize_bytes(&mut self) -> (r: Result<Vec<u8>, Error>)
        requires
            old(self).wf(),
        ensures
            final(self).stepped(
                *old(self),
                parse_bulk_bytes(old(self).rest()),
                match r {
                    Ok(v) => Ok(v@),
                    Err(e) => Err(e.fault()),
                },
            ),
    {
        let ghost s = self.rest();
        let first = self.next_byte()?;
        assert(self.rest() =~= s.drop_first());
        let kind = match RespDataKind::from_prefix_bytes(first) {
            Some(k) => k,
            None => {
                return Err(Error::UnrecognizedStart);
            },
        };
        if !(kind == RespDataKind::BulkString || kind == RespDataKind::BulkError || kind
            == RespDataKind::VerbatimString) {
            return Err(Error::unexpected_byte("A bulk string prefix", first));
        }
        let data = self.parse_bulk_payload()?;
        proof {
            let n = parse_bulk_text(s.drop_first())->Ok_0.1;
            assert(s.drop_first().skip(n) =~= s.skip(n + 1));
        }
        Ok(data)
    }

    /// The same as [`Deserializer::deserialize_bytes`].
    pub fn deserialize_byte_buf(&mut self) -> (r: Result<Vec<u8>, Error>)
        requires
            old(self).wf(),
        ensures
            final(self).stepped(
                *old(self),
                parse_bulk_bytes(old(self).rest()),
                match r {
                    Ok(v) => Ok(v@),
                    Err(e) => Err(e.fault()),
                },
            ),
    {
        self.deserialize_bytes()
    }

    /// Consumes a Null unit.
    pub fn deserialize_unit(&mut self) -> (r: Result<(), Error>)
        requires
            old(self).wf(),
        ensures
            final(self).stepped(
                *old(self),
                match parse_null(old(self).rest()) {
                    Ok(n) => Ok(((), n)),
                    Err(f) => Err(f),
                },
                outcome(r),
            ),
    {
        let ghost s = self.rest();
        self.expect_byte(95)?;
        assert(self.rest() =~= s.drop_first());
        self.expect_crlf()?;
        assert(self.rest() =~= s.skip(3));
        Ok(())
    }

    /// A unit struct: a Null unit.
    pub fn deserialize_unit_struct(&mut self) -> (r: Result<(), Error>)
        requires
            old(self).wf(),
        ensures
            final(self).stepped(
                *old(self),
                match parse_null(old(self).rest()) {
                    Ok(n) => Ok(((), n)),
                    Err(f) => Err(f),
                },
                outcome(r),
            ),
    {
        self.deserialize_unit()
    }

    /// An optional value: where a Null unit stands it is consumed and the
    /// value is absent (`false`); otherwise nothing is consumed and the value
    /// that follows is present (`true`).
    pub fn deserialize_option(&mut self) -> (r: Result<bool, Error>)
        requires
            old(self).wf(),
        ensures
            final(self).stepped(*old(self), parse_option(old(self).rest()), outcome(r)),
    {
        if self.pos < self.input.len() && self.input[self.pos] == 95 {
            self.deserialize_unit()?;
            Ok(false)
        } else {
            assert(self.rest().skip(0) =~= self.rest());
            Ok(true)
        }
    }

    /// Consumes the header of a sequence (`sequence`) or map unit.
    fn parse_header(&mut self, sequence: bool) -> (r: Result<usize, Error>)
        requires
            old(self).wf(),
        ensures
            final(self).stepped(
                *old(self),
                parse_header(old(self).rest(), sequence),
                match r {
                    Ok(v) => Ok(v as nat),
                    Err(e) => Err(e.fault()),
                },
            ),
    {
        let ghost s = self.rest();
        let kind = self.lookahead()?;
        let first = self.input[self.pos];
        if sequence && !(kind == RespDataKind::Array || kind == RespDataKind::SetData || kind
            == RespDataKind::Push) {
            return Err(Error::unexpected_byte("An array, set, or push prefix", first));
        }
        if !sequence && !(kind == RespDataKind::MapData || kind == RespDataKind::Attributes) {
            return Err(Error::unexpected_byte("A map or attributes prefix", first));
        }
        self.advance(1);
        assert(self.rest() =~= s.drop_first());
        let length = self.expect_length()?;
        let ghost k = self.pos - old(self).pos - 1;
        assert(self.rest() =~= s.skip(1 + k));
        self.expect_crlf()?;
        assert(self.rest() =~= s.skip(1 + k + 2));
        Ok(length)
    }

    /// Consumes the header of an Array, Set or Push unit, and hands back an
    /// accessor bound to its declared count.
    pub fn deserialize_seq(&mut self) -> (r: Result<LengthSeqVisitor, Error>)
        requires
            old(self).wf(),
        ensures
            final(self).stepped(
                *old(self),
                parse_header(old(self).rest(), true),
                match r {
                    Ok(v) => Ok(v.declared()),
                    Err(e) => Err(e.fault()),
                },
            ),
            r is Ok ==> r->Ok_0.taken() == 0,
    {
        let length = self.parse_header(true)?;
        Ok(LengthSeqVisitor::new(length))
    }

    /// A tuple: framed as a sequence.
    pub fn deserialize_tuple(&mut self) -> (r: Result<LengthSeqVisitor, Error>)
        requires
            old(self).wf(),
        ensures
            final(self).stepped(
                *old(self),
                parse_header(old(self).rest(), true),
                match r {
                    Ok(v) => Ok(v.declared()),
                    Err(e) => Err(e.fault()),
                },
            ),
            r is Ok ==> r->Ok_0.taken() == 0,
    {
        self.deserialize_seq()
    }

    /// Consumes the header of a Map or Attributes unit, and hands back an
    /// accessor bound to its declared pair count.
    pub fn deserialize_map(&mut self) -> (r: Result<LengthSeqVisitor, Error>)
        requires
            old(self).wf(),
        ensures
            final(self).stepped(
                *old(self),
                parse_header(old(self).rest(), false),
                match r {
                    Ok(v) => Ok(v.declared()),
                    Err(e) => Err(e.fault()),
                },
            ),
            r is Ok ==> r->Ok_0.taken() == 0,
    {
        let length = self.parse_header(false)?;
        Ok(LengthSeqVisitor::new(length))
    }

    /// A struct: framed as a map whose keys are the field names.
    pub fn deserialize_struct(&mut self) -> (r: Result<LengthSeqVisitor, Error>)
        requires
            old(self).wf(),
        ensures
            final(self).stepped(
                *old(self),
                parse_header(old(self).rest(), false),
                match r {
                    Ok(v) => Ok(v.declared()),
                    Err(e) => Err(e.fault()),
                },
            ),
            r is Ok ==> r->Ok_0.taken() == 0,
    {
        self.deserialize_map()
    }

    /// Consumes the start of a tagged union: a string unit names a unit
    /// variant; a map of exactly one pair names, by its key, a variant whose
    /// payload follows. A map of any other size is malformed.
    pub fn deserialize_enum(&mut self) -> (r: Result<EnumDeserializer, Error>)
        requires
            old(self).wf(),
        ensures
            final(self).stepped(
                *old(self),
                parse_variant(old(self).rest()),
                match r {
                    Ok(v) => Ok((v.name(), v.tagged())),
                    Err(e) => Err(e.fault()),
                },
            ),
    {
        let ghost s = self.rest();
        let kind = self.lookahead()?;
        let first = self.input[self.pos];
        if kind == RespDataKind::SimpleString || kind == RespDataKind::SimpleError || kind
            == RespDataKind::BulkString || kind == RespDataKind::BulkError || kind
            == RespDataKind::VerbatimString {
            let name = self.parse_string()?;
            Ok(EnumDeserializer::new(name, false))
        } else if kind == RespDataKind::MapData || kind == RespDataKind::Attributes {
            self.advance(1);
            assert(self.rest() =~= s.drop_first());
            let length = self.expect_length()?;
            let ghost k = self.pos - old(self).pos - 1;
            if length != 1 {
                return Err(
                    Error::DeserializeError(
                        "Expected a single key-value pair for enum variant".to_string(),
                    ),
                );
            }
            assert(self.rest() =~= s.skip(1 + k));
            self.expect_crlf()?;
            assert(self.rest() =~= s.skip(1 + k + 2));
            let ghost mid = self.rest();
            let name = self.parse_string()?;
            assert(self.rest() =~= s.skip(1 + k + 2 + parse_string(mid)->Ok_0.1));
            Ok(EnumDeserializer::new(name, true))
        } else {
            Err(Error::unexpected_byte("A string or map prefix", first))
        }
    }

    /// Consumes a length or count.
    fn expect_length(&mut self) -> (r: Result<usize, Error>)
        requires
            old(self).wf(),
        ensures
            final(self).stepped(
                *old(self),
                parse_length(old(self).rest()),
                match r {
                    Ok(v) => Ok(v as nat),
                    Err(e) => Err(e.fault()),
                },
            ),
    {
        let ghost s = self.rest();
        let end = self.scan(false);
        if end == self.input.len() || end == self.pos {
            return Err(Error::ExpectedLength);
        }
        proof {
            assert(s.take(end - self.pos) =~= self.input@.subrange(self.pos as int, end as int));
            assert forall|j: int| 0 <= j < end - self.pos implies is_digit(
                #[trigger] s.take(end - self.pos)[j],
            ) by {
                lemma_run_prefix(s, j, false);
            }
        }
        match self.digits_value(self.pos, end, usize::MAX as u128) {
            Some(v) => {
                let n = end - self.pos;
                self.advance(n);
                Ok(v as usize)
            },
            None => Err(Error::ExpectedLength),
        }
    }
}

/// The accessor of a sequence or map: it hands out exactly as many element
/// (or pair) slots as the header declared, and never looks for an end marker.
pub struct LengthSeqVisitor {
    length: usize,
    current: usize,
}

impl LengthSeqVisitor {
    /// No more slots are taken than were declared.
    #[verifier::type_invariant]
    spec fn inv(&self) -> bool {
        self.current <= self.length
    }

    /// The count that the header declared.
    pub closed spec fn declared(&self) -> nat {
        self.length as nat
    }

    /// How many slots were handed out.
    pub closed spec fn taken(&self) -> nat {
        self.current as nat
    }

    /// An accessor for `length` elements, none yet taken.
    pub fn new(length: usize) -> (v: Self)
        ensures
            v.declared() == length,
            v.taken() == 0,
    {
        LengthSeqVisitor { length, current: 0 }
    }

    /// Takes the slot of the next element: `true`, and one more taken, while
    /// fewer than the declared count were taken; `false`, and no change, after.
    /// The caller decodes the element itself.
    pub fn next_element(&mut self) -> (r: bool)
        ensures
            final(self).declared() == old(self).declared(),
            r == (old(self).taken() < old(self).declared()),
            r ==> final(self).taken() == old(self).taken() + 1,
            !r ==> final(self).taken() == old(self).taken(),
    {
        proof {
            use_type_invariant(&*self);
        }
        if self.current >= self.length {
            return false;
        }
        self.current = self.current + 1;
        true
    }

    /// Takes the slot of the next key/value pair, as `next_element` does;
    /// the caller decodes the key and then the value.
    pub fn next_key(&mut self) -> (r: bool)
        ensures
            final(self).declared() == old(self).declared(),
            r == (old(self).taken() < old(self).declared()),
            r ==> final(self).taken() == old(self).taken() + 1,
            !r ==> final(self).taken() == old(self).taken(),
    {
        self.next_element()
    }

    /// How many slots are left.
    pub fn remaining(&self) -> (r: usize)
        ensures
            r == self.declared() - self.taken(),
    {
        proof {
            use_type_invariant(self);
        }
        self.length - self.current
    }
}

/// The accessor of a tagged union: the variant name, and whether a payload
/// follows it on the wire.
pub struct EnumDeserializer {
    variant: String,
    payload: bool,
}

impl EnumDeserializer {
    /// The variant name.
    pub closed spec fn name(&self) -> Seq<char> {
        self.variant@
    }

    /// A payload follows (the variant came as a one-pair map).
    pub closed spec fn tagged(&self) -> bool {
        self.payload
    }

    pub fn new(variant: String, payload: bool) -> (e: Self)
        ensures
            e.name() == variant@,
            e.tagged() == payload,
    {
        EnumDeserializer { variant, payload }
    }

    /// The variant name.
    pub fn variant(&self) -> (r: &String)
        ensures
            r@ == self.name(),
    {
        &self.variant
    }

    /// Whether a payload follows.
    pub fn has_payload(&self) -> (r: bool)
        ensures
            r == self.tagged(),
    {
        self.payload
    }

    /// The consumer expects a unit variant: only a bare name is one.
    pub fn unit_variant(&self) -> (r: Result<(), Error>)
        ensures
            r is Ok <==> !self.tagged(),
            r is Err ==> r->Err_0.fault() == Fault::Malformed,
    {
        if self.payload {
            Err(Error::DeserializeError("Expected a unit variant, which must be a string".to_string()))
        } else {
            Ok(())
        }
    }

    /// The consumer expects a newtype, tuple or struct variant: only a
    /// one-pair map is one. On `Ok` the caller decodes the payload (a value,
    /// a sequence, or a map).
    pub fn payload_variant(&self) -> (r: Result<(), Error>)
        ensures
            r is Ok <==> self.tagged(),
            r is Err ==> r->Err_0.fault() == Fault::Malformed,
    {
        if self.payload {
            Ok(())
        } else {
            Err(Error::DeserializeError("Expected a variant with a payload, found a unit variant".to_string()))
        }
    }
}

/// The bytes before the end of a run are in the run's class.
proof fn lemma_run_prefix(s: Seq<u8>, j: int, numeric: bool)
    requires
        0 <= j < run_len(s, numeric),
    ensures
        j < s.len(),
        in_class(s[j], numeric),
    decreases j,
{
    assert(s.len() > 0 && in_class(s[0], numeric));
    if j > 0 {
        lemma_run_prefix(s.drop_first(), j - 1, numeric);
    }
}

} // verus!
