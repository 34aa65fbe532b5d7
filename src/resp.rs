use vstd::prelude::*;

verus! {

/// The fifteen RESP wire tags, each bound to one ASCII prefix byte.
///
/// `BulkError`, `VerbatimString`, `Attributes`, `Set` and `Push` are only
/// ever read: the encoder never emits them.
#[derive(Debug, Clone, Copy, PartialEq, Eq, Hash, Structural)]
pub enum RespDataKind {
    /// `+`: text up to CRLF.
    SimpleString,
    /// `-`: text up to CRLF.
    SimpleError,
    /// `:`: optional sign and digits, CRLF.
    Integer,
    /// `$`: length, CRLF, payload, CRLF; length `-1` is the null string.
    BulkString,
    /// `*`: element count, CRLF, then the elements.
    Array,
    /// `_`: CRLF only.
    Null,
    /// `#`: `t` or `f`, CRLF.
    Boolean,
    /// `,`: a decimal or exponent text, CRLF.
    Float,
    /// `(`: optional sign and digits of any magnitude, CRLF.
    BigNumber,
    /// `!`: framed as a bulk string.
    BulkError,
    /// `=`: framed as a bulk string.
    VerbatimString,
    /// `%`: pair count, CRLF, then the key/value pairs.
    MapData,
    /// `|`: framed as a map.
    Attributes,
    /// `~`: framed as an array.
    SetData,
    /// `>`: framed as an array.
    Push,
}

/// The prefix byte of each tag.
pub open spec fn prefix_byte(k: RespDataKind) -> u8 {
    match k {
        RespDataKind::SimpleString => 43u8,
        RespDataKind::SimpleError => 45u8,
        RespDataKind::Integer => 58u8,
        RespDataKind::BulkString => 36u8,
        RespDataKind::Array => 42u8,
        RespDataKind::Null => 95u8,
        RespDataKind::Boolean => 35u8,
        RespDataKind::Float => 44u8,
        RespDataKind::BigNumber => 40u8,
        RespDataKind::BulkError => 33u8,
        RespDataKind::VerbatimString => 61u8,
        RespDataKind::MapData => 37u8,
        RespDataKind::Attributes => 124u8,
        RespDataKind::SetData => 126u8,
        RespDataKind::Push => 62u8,
    }
}

/// The tag that a prefix byte announces, if any.
pub open spec fn kind_of_prefix(b: u8) -> Option<RespDataKind> {
    if b == 43 {
        Some(RespDataKind::SimpleString)
    } else if b == 45 {
        Some(RespDataKind::SimpleError)
    } else if b == 58 {
        Some(RespDataKind::Integer)
    } else if b == 36 {
        Some(RespDataKind::BulkString)
    } else if b == 42 {
        Some(RespDataKind::Array)
    } else if b == 95 {
        Some(RespDataKind::Null)
    } else if b == 35 {
        Some(RespDataKind::Boolean)
    } else if b == 44 {
        Some(RespDataKind::Float)
    } else if b == 40 {
        Some(RespDataKind::BigNumber)
    } else if b == 33 {
        Some(RespDataKind::BulkError)
    } else if b == 61 {
        Some(RespDataKind::VerbatimString)
    } else if b == 37 {
        Some(RespDataKind::MapData)
    } else if b == 124 {
        Some(RespDataKind::Attributes)
    } else if b == 126 {
        Some(RespDataKind::SetData)
    } else if b == 62 {
        Some(RespDataKind::Push)
    } else {
        None
    }
}

/// The registry is a bijection between the tags and their prefix bytes.
pub proof fn lemma_prefix_bijection(k: RespDataKind, b: u8)
    ensures
        kind_of_prefix(prefix_byte(k)) == Some(k),
        kind_of_prefix(b) == Some(k) <==> prefix_byte(k) == b,
{
}

/// How a consumer that accepts a unit of any shape reads it, by its tag.
#[derive(Debug, Clone, Copy, PartialEq, Eq, Structural)]
pub enum Reading {
    /// As text: simple and bulk strings and errors, verbatim strings.
    Text,
    /// As a signed 64-bit integer.
    Integer,
    /// As a 128-bit integer: a big number may exceed 64 bits.
    BigInteger,
    /// As a float.
    Float,
    /// As a boolean.
    Boolean,
    /// As the unit value.
    Unit,
    /// As a sequence: arrays, sets, pushes.
    Sequence,
    /// As a map: maps and attributes.
    Pairs,
}

/// The reading of each tag.
pub open spec fn reading_of(k: RespDataKind) -> Reading {
    match k {
        RespDataKind::SimpleString | RespDataKind::SimpleError | RespDataKind::BulkString
        | RespDataKind::BulkError | RespDataKind::VerbatimString => Reading::Text,
        RespDataKind::Integer => Reading::Integer,
        RespDataKind::BigNumber => Reading::BigInteger,
        RespDataKind::Float => Reading::Float,
        RespDataKind::Boolean => Reading::Boolean,
        RespDataKind::Null => Reading::Unit,
        RespDataKind::Array | RespDataKind::SetData | RespDataKind::Push => Reading::Sequence,
        RespDataKind::MapData | RespDataKind::Attributes => Reading::Pairs,
    }
}

impl RespDataKind {
    /// How a unit of this tag is read where any shape is accepted.
    pub fn reading(self) -> (r: Reading)
        ensures
            r == reading_of(self),
    {
        match self {
            RespDataKind::SimpleString | RespDataKind::SimpleError | RespDataKind::BulkString
            | RespDataKind::BulkError | RespDataKind::VerbatimString => Reading::Text,
            RespDataKind::Integer => Reading::Integer,
            RespDataKind::BigNumber => Reading::BigInteger,
            RespDataKind::Float => Reading::Float,
            RespDataKind::Boolean => Reading::Boolean,
            RespDataKind::Null => Reading::Unit,
            RespDataKind::Array | RespDataKind::SetData | RespDataKind::Push => Reading::Sequence,
            RespDataKind::MapData | RespDataKind::Attributes => Reading::Pairs,
        }
    }

    /// The prefix of this tag as a character.
    pub fn to_prefix_char(self) -> (c: char)
        ensures
            c as u32 == prefix_byte(self) as u32,
    {
        match self {
            RespDataKind::SimpleString => '+',
            RespDataKind::SimpleError => '-',
            RespDataKind::Integer => ':',
            RespDataKind::BulkString => '$',
            RespDataKind::Array => '*',
            RespDataKind::Null => '_',
            RespDataKind::Boolean => '#',
            RespDataKind::Float => ',',
            RespDataKind::BigNumber => '(',
            RespDataKind::BulkError => '!',
            RespDataKind::VerbatimString => '=',
            RespDataKind::MapData => '%',
            RespDataKind::Attributes => '|',
            RespDataKind::SetData => '~',
            RespDataKind::Push => '>',
        }
    }

    /// The prefix of this tag as a byte.
    pub fn to_prefix_bytes(self) -> (b: u8)
        ensures
            b == prefix_byte(self),
    {
        match self {
            RespDataKind::SimpleString => 43u8,
            RespDataKind::SimpleError => 45u8,
            RespDataKind::Integer => 58u8,
            RespDataKind::BulkString => 36u8,
            RespDataKind::Array => 42u8,
            RespDataKind::Null => 95u8,
            RespDataKind::Boolean => 35u8,
            RespDataKind::Float => 44u8,
            RespDataKind::BigNumber => 40u8,
            RespDataKind::BulkError => 33u8,
            RespDataKind::VerbatimString => 61u8,
            RespDataKind::MapData => 37u8,
            RespDataKind::Attributes => 124u8,
            RespDataKind::SetData => 126u8,
            RespDataKind::Push => 62u8,
        }
    }

    /// The tag announced by a prefix character; `None` for any other character.
    pub fn from_prefix_char(c: char) -> (r: Option<RespDataKind>)
        ensures
            (c as u32) < 256 ==> r == kind_of_prefix(c as u32 as u8),
            (c as u32) >= 256 ==> r is None,
    {
        match c {
            '+' => Some(RespDataKind::SimpleString),
            '-' => Some(RespDataKind::SimpleError),
            ':' => Some(RespDataKind::Integer),
            '$' => Some(RespDataKind::BulkString),
            '*' => Some(RespDataKind::Array),
            '_' => Some(RespDataKind::Null),
            '#' => Some(RespDataKind::Boolean),
            ',' => Some(RespDataKind::Float),
            '(' => Some(RespDataKind::BigNumber),
            '!' => Some(RespDataKind::BulkError),
            '=' => Some(RespDataKind::VerbatimString),
            '%' => Some(RespDataKind::MapData),
            '|' => Some(RespDataKind::Attributes),
            '~' => Some(RespDataKind::SetData),
            '>' => Some(RespDataKind::Push),
            _ => None,
        }
    }

    /// The tag announced by a prefix byte; `None` for any other byte.
    pub fn from_prefix_bytes(b: u8) -> (r: Option<RespDataKind>)
        ensures
            r == kind_of_prefix(b),
    {
        match b {
            43u8 => Some(RespDataKind::SimpleString),
            45u8 => Some(RespDataKind::SimpleError),
            58u8 => Some(RespDataKind::Integer),
            36u8 => Some(RespDataKind::BulkString),
            42u8 => Some(RespDataKind::Array),
            95u8 => Some(RespDataKind::Null),
            35u8 => Some(RespDataKind::Boolean),
            44u8 => Some(RespDataKind::Float),
            40u8 => Some(RespDataKind::BigNumber),
            33u8 => Some(RespDataKind::BulkError),
            61u8 => Some(RespDataKind::VerbatimString),
            37u8 => Some(RespDataKind::MapData),
            124u8 => Some(RespDataKind::Attributes),
            126u8 => Some(RespDataKind::SetData),
            62u8 => Some(RespDataKind::Push),
            _ => None,
        }
    }
}

impl From<RespDataKind> for u8 {
    fn from(kind: RespDataKind) -> (b: u8) {
        kind.to_prefix_bytes()
    }
}

impl vstd::std_specs::convert::FromSpecImpl<RespDataKind> for u8 {
    open spec fn obeys_from_spec() -> bool {
        true
    }

    open spec fn from_spec(kind: RespDataKind) -> u8 {
        prefix_byte(kind)
    }
}

impl From<RespDataKind> for char {
    fn from(kind: RespDataKind) -> (c: char) {
        kind.to_prefix_char()
    }
}

impl vstd::std_specs::convert::FromSpecImpl<RespDataKind> for char {
    open spec fn obeys_from_spec() -> bool {
        true
    }

    open spec fn from_spec(kind: RespDataKind) -> char {
        prefix_byte(kind) as char
    }
}

impl TryFrom<u8> for RespDataKind {
    type Error = ();

    fn try_from(b: u8) -> (r: Result<RespDataKind, ()>) {
        match RespDataKind::from_prefix_bytes(b) {
            Some(k) => Ok(k),
            None => Err(()),
        }
    }
}

impl vstd::std_specs::convert::TryFromSpecImpl<u8> for RespDataKind {
    open spec fn obeys_try_from_spec() -> bool {
        true
    }

    open spec fn try_from_spec(b: u8) -> Result<RespDataKind, ()> {
        match kind_of_prefix(b) {
            Some(k) => Ok(k),
            None => Err(()),
        }
    }
}

impl TryFrom<char> for RespDataKind {
    type Error = ();

    fn try_from(c: char) -> (r: Result<RespDataKind, ()>) {
        match RespDataKind::from_prefix_char(c) {
            Some(k) => Ok(k),
            None => Err(()),
        }
    }
}

impl vstd::std_specs::convert::TryFromSpecImpl<char> for RespDataKind {
    open spec fn obeys_try_from_spec() -> bool {
        true
    }

    open spec fn try_from_spec(c: char) -> Result<RespDataKind, ()> {
        if (c as u32) < 256 {
            match kind_of_prefix(c as u32 as u8) {
                Some(k) => Ok(k),
                None => Err(()),
            }
        } else {
            Err(())
        }
    }
}

} // verus!
