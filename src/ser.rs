use crate::error::{Error, Fault};
use crate::text::{char_text, string_from_utf8};
use crate::wire::{
    crlf, decimal, enc_array_header, enc_big_number, enc_bool, enc_bulk, enc_float_text,
    enc_integer, enc_map_header, enc_null, enc_variant_header, signed_decimal,
};
use vstd::prelude::*;
use vstd::utf8::{decode_utf8, encode_utf8, valid_utf8};

verus! {

/// The encode engine: a passive appender. The owner of a value walks it and
/// calls one method per node; each method appends one complete unit (or the
/// header of a compound one, whose parts the caller then writes in order).
/// Nothing written is ever rewritten, and compound units have no closing
/// bytes.
#[derive(Debug)]
pub struct Serializer {
    output: Vec<u8>,
}

impl Serializer {
    /// What has been written so far.
    pub closed spec fn written(&self) -> Seq<u8> {
        self.output@
    }

    /// An engine that has written nothing.
    pub fn new() -> (s: Self)
        ensures
            s.written() == Seq::<u8>::empty(),
    {
        Serializer { output: Vec::new() }
    }

    /// The bytes written so far.
    pub fn output(&self) -> (r: &Vec<u8>)
        ensures
            r@ == self.written(),
    {
        &self.output
    }

    /// The bytes written, handed over.
    pub fn into_bytes(self) -> (r: Vec<u8>)
        ensures
            r@ == self.written(),
    {
        self.output
    }

    /// The bytes written, as text; they are not text where a byte payload
    /// that is not UTF-8 was written.
    pub fn into_string(self) -> (r: Result<String, Error>)
        ensures
            match r {
                Ok(s) => valid_utf8(self.written()) && s@ == decode_utf8(self.written()),
                Err(e) => !valid_utf8(self.written()) && e.fault() == Fault::Utf8,
            },
    {
        match string_from_utf8(self.output) {
            Some(s) => Ok(s),
            None => Err(Error::InvalidUtf8),
        }
    }

    fn push_all(&mut self, bytes: &[u8])
        ensures
            final(self).written() == old(self).written() + bytes@,
    {
        let mut i: usize = 0;
        while i < bytes.len()
            invariant
                i <= bytes@.len(),
                self.written() == old(self).written() + bytes@.take(i as int),
            decreases bytes@.len() - i,
        {
            self.output.push(bytes[i]);
            assert(bytes@.take(i + 1) =~= bytes@.take(i as int).push(bytes@[i as int]));
            i = i + 1;
        }
        assert(bytes@.take(i as int) =~= bytes@);
    }

    fn push_crlf(&mut self)
        ensures
            final(self).written() == old(self).written() + crlf(),
    {
        self.output.push(13);
        self.output.push(10);
        assert(self.written() =~= old(self).written() + crlf());
    }

    /// Appends the canonical decimal digits of `n`.
    fn push_decimal(&mut self, n: u64)
        ensures
            final(self).written() == old(self).written() + decimal(n as nat),
        decreases n,
    {
        if n >= 10 {
            self.push_decimal(n / 10);
        }
        self.output.push((48 + n % 10) as u8);
        assert(self.written() =~= old(self).written() + decimal(n as nat));
    }

    /// Appends the tag, the decimal text of `v`, and CRLF.
    fn push_signed(&mut self, v: i64)
        ensures
            final(self).written() == old(self).written() + signed_decimal(v as int),
    {
        if v < 0 {
            self.output.push(45);
            let magnitude = (-(v as i128)) as u64;
            self.push_decimal(magnitude);
        } else {
            self.push_decimal(v as u64);
        }
        assert(self.written() =~= old(self).written() + signed_decimal(v as int));
    }

    /// `#t` or `#f`, then CRLF.
    pub fn serialize_bool(&mut self, v: bool)
        ensures
            final(self).written() == old(self).written() + enc_bool(v),
    {
        self.output.push(35);
        self.output.push(if v { 116 } else { 102 });
        self.push_crlf();
        assert(self.written() =~= old(self).written() + enc_bool(v));
    }

    /// An Integer unit: `:`, the decimal text, CRLF.
    pub fn serialize_i64(&mut self, v: i64)
        ensures
            final(self).written() == old(self).written() + enc_integer(v as int),
    {
        self.output.push(58);
        self.push_signed(v);
        self.push_crlf();
        assert(self.written() =~= old(self).written() + enc_integer(v as int));
    }

    /// An Integer unit.
    pub fn serialize_i8(&mut self, v: i8)
        ensures
            final(self).written() == old(self).written() + enc_integer(v as int),
    {
        self.serialize_i64(v as i64)
    }

    /// An Integer unit.
    pub fn serialize_i16(&mut self, v: i16)
        ensures
            final(self).written() == old(self).written() + enc_integer(v as int),
    {
        self.serialize_i64(v as i64)
    }

    /// An Integer unit.
    pub fn serialize_i32(&mut self, v: i32)
        ensures
            final(self).written() == old(self).written() + enc_integer(v as int),
    {
        self.serialize_i64(v as i64)
    }

    /// An Integer unit.
    pub fn serialize_u8(&mut self, v: u8)
        ensures
            final(self).written() == old(self).written() + enc_integer(v as int),
    {
        self.serialize_i64(v as i64)
    }

    /// An Integer unit.
    pub fn serialize_u16(&mut self, v: u16)
        ensures
            final(self).written() == old(self).written() + enc_integer(v as int),
    {
        self.serialize_i64(v as i64)
    }

    /// An Integer unit.
    pub fn serialize_u32(&mut self, v: u32)
        ensures
            final(self).written() == old(self).written() + enc_integer(v as int),
    {
        self.serialize_i64(v as i64)
    }

    /// A BigNumber unit, whatever the value: RESP's Integer is signed 64-bit,
    /// and the rule does not depend on the value.
    pub fn serialize_u64(&mut self, v: u64)
        ensures
            final(self).written() == old(self).written() + enc_big_number(v as nat),
    {
        self.output.push(40);
        self.push_decimal(v);
        self.push_crlf();
        assert(self.written() =~= old(self).written() + enc_big_number(v as nat));
    }

    /// A Float unit whose text the caller rendered (the shortest text that
    /// reads back as the same value of its width).
    pub fn serialize_float_text(&mut self, text: &str)
        ensures
            final(self).written() == old(self).written() + enc_float_text(encode_utf8(text@)),
    {
        self.output.push(44);
        self.push_all(text.as_bytes());
        self.push_crlf();
        assert(self.written() =~= old(self).written() + enc_float_text(encode_utf8(text@)));
    }

    /// A Bulk String unit: `$`, the length, CRLF, the bytes, CRLF.
    pub fn serialize_bytes(&mut self, v: &[u8])
        ensures
            final(self).written() == old(self).written() + enc_bulk(v@),
    {
        self.output.push(36);
        self.push_decimal(v.len() as u64);
        self.push_crlf();
        self.push_all(v);
        self.push_crlf();
        assert(self.written() =~= old(self).written() + enc_bulk(v@));
    }

    /// The UTF-8 bytes of `v` as a Bulk String unit.
    pub fn serialize_str(&mut self, v: &str)
        ensures
            final(self).written() == old(self).written() + enc_bulk(encode_utf8(v@)),
    {
        self.serialize_bytes(v.as_bytes())
    }

    /// A one-character Bulk String unit.
    pub fn serialize_char(&mut self, v: char)
        ensures
            final(self).written() == old(self).written() + enc_bulk(encode_utf8(seq![v])),
    {
        let text = char_text(v);
        self.serialize_str(text.as_str())
    }

    /// An absent value: a Null unit.
    pub fn serialize_none(&mut self)
        ensures
            final(self).written() == old(self).written() + enc_null(),
    {
        self.output.push(95);
        self.push_crlf();
        assert(self.written() =~= old(self).written() + enc_null());
    }

    /// The unit value: a Null unit, the same as an absent value.
    pub fn serialize_unit(&mut self)
        ensures
            final(self).written() == old(self).written() + enc_null(),
    {
        self.serialize_none()
    }

    /// A unit struct: a Null unit.
    pub fn serialize_unit_struct(&mut self)
        ensures
            final(self).written() == old(self).written() + enc_null(),
    {
        self.serialize_none()
    }

    /// A unit variant: its name as a Bulk String unit.
    pub fn serialize_unit_variant(&mut self, variant: &str)
        ensures
            final(self).written() == old(self).written() + enc_bulk(encode_utf8(variant@)),
    {
        self.serialize_str(variant)
    }

    /// A newtype variant: a map of one pair keyed by the variant name. The
    /// caller then writes the payload.
    pub fn serialize_newtype_variant(&mut self, variant: &str)
        ensures
            final(self).written() == old(self).written() + enc_variant_header(encode_utf8(variant@)),
    {
        self.push_map_header(1);
        self.serialize_str(variant);
        assert(self.written() =~= old(self).written() + enc_variant_header(encode_utf8(variant@)));
    }

    fn push_map_header(&mut self, len: usize)
        ensures
            final(self).written() == old(self).written() + enc_map_header(len as nat),
    {
        self.output.push(37);
        self.push_decimal(len as u64);
        self.push_crlf();
        assert(self.written() =~= old(self).written() + enc_map_header(len as nat));
    }

    /// An Array header: `*`, the count (`-1` where it is not known), CRLF.
    /// The caller then writes the elements in order.
    pub fn serialize_seq(&mut self, len: Option<usize>)
        ensures
            final(self).written() == old(self).written() + enc_array_header(
                match len {
                    Some(n) => Some(n as nat),
                    None => None,
                },
            ),
    {
        self.output.push(42);
        match len {
            Some(n) => {
                self.push_decimal(n as u64);
            },
            None => {
                self.output.push(45);
                self.output.push(49);
            },
        }
        self.push_crlf();
        assert(self.written() =~= old(self).written() + enc_array_header(
            match len {
                Some(n) => Some(n as nat),
                None => None,
            },
        ));
    }

    /// A tuple: an Array header of its arity.
    pub fn serialize_tuple(&mut self, len: usize)
        ensures
            final(self).written() == old(self).written() + enc_array_header(Some(len as nat)),
    {
        self.serialize_seq(Some(len))
    }

    /// A tuple struct: an Array header of its arity.
    pub fn serialize_tuple_struct(&mut self, len: usize)
        ensures
            final(self).written() == old(self).written() + enc_array_header(Some(len as nat)),
    {
        self.serialize_seq(Some(len))
    }

    /// A tuple variant: a map of one pair keyed by the variant name, whose
    /// value is an Array of the fields. The caller then writes the fields.
    pub fn serialize_tuple_variant(&mut self, variant: &str, len: usize)
        ensures
            final(self).written() == old(self).written() + enc_variant_header(encode_utf8(variant@))
                + enc_array_header(Some(len as nat)),
    {
        self.serialize_newtype_variant(variant);
        self.serialize_seq(Some(len));
        assert(self.written() =~= old(self).written() + enc_variant_header(encode_utf8(variant@))
            + enc_array_header(Some(len as nat)));
    }

    /// A Map header: `%`, the pair count, CRLF. The count must be known
    /// before the first pair is written; without it nothing is written and
    /// the call fails. The caller then writes each key and its value.
    pub fn serialize_map(&mut self, len: Option<usize>) -> (r: Result<(), Error>)
        ensures
            match len {
                Some(n) => r is Ok && final(self).written() == old(self).written()
                    + enc_map_header(n as nat),
                None => r is Err && r->Err_0.fault() == Fault::Rejected && final(self).written()
                    == old(self).written(),
            },
    {
        match len {
            Some(n) => {
                self.push_map_header(n);
                Ok(())
            },
            None => Err(Error::SerializeError("Cannot serialize a map with unknown length".to_string())),
        }
    }

    /// A struct: a Map header of its field count. The caller then writes
    /// each field name and its value.
    pub fn serialize_struct(&mut self, len: usize)
        ensures
            final(self).written() == old(self).written() + enc_map_header(len as nat),
    {
        self.push_map_header(len)
    }

    /// A struct variant: a map of one pair keyed by the variant name, whose
    /// value is a Map of the fields. The caller then writes the fields.
    pub fn serialize_struct_variant(&mut self, variant: &str, len: usize)
        ensures
            final(self).written() == old(self).written() + enc_variant_header(encode_utf8(variant@))
                + enc_map_header(len as nat),
    {
        self.serialize_newtype_variant(variant);
        self.push_map_header(len);
        assert(self.written() =~= old(self).written() + enc_variant_header(encode_utf8(variant@))
            + enc_map_header(len as nat));
    }
}

impl Default for Serializer {
    fn default() -> (s: Self)
        ensures
            s.written() == Seq::<u8>::empty(),
    {
        Serializer::new()
    }
}

} // verus!
