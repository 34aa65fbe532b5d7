//! Whole values. The encode engine is push-driven: a value is written as the
//! pre-order walk of its nodes, one engine call per node. The decode engine
//! is pull-driven: the consumer reads each node with the call for the kind of
//! node it expects. This module states what that makes of a whole value.

use crate::error::Fault;
use crate::wire::{
    enc_array_header, enc_big_number, enc_bool, enc_bulk, enc_float_text, enc_integer,
    enc_map_header, enc_null, enc_variant_header, is_numeric, lemma_round_trip_big_number,
    lemma_round_trip_bool, lemma_round_trip_bytes, lemma_round_trip_char, lemma_round_trip_float_text, lemma_round_trip_integer,
    lemma_round_trip_map_header, lemma_round_trip_null, lemma_round_trip_seq_header,
    lemma_round_trip_string, lemma_round_trip_unit_variant, lemma_round_trip_variant,
    parse_bool, parse_bulk_bytes, parse_char, parse_header, parse_integer, parse_null, parse_number_text, parse_string,
    parse_variant,
};
use vstd::prelude::*;
use vstd::utf8::encode_utf8;

verus! {

/// One node of a value's walk: a scalar, the header of a sequence (its
/// element count) or of a map (its pair count), or a variant name. An
/// absent optional is `Null`; a present one is the walk of its value.
pub enum Node {
    Null,
    Bool(bool),
    Int(int),
    Big(nat),
    Float(Seq<u8>),
    Text(Seq<char>),
    Char(char),
    Bytes(Seq<u8>),
    Items(nat),
    Pairs(nat),
    UnitVariant(Seq<char>),
    Variant(Seq<char>),
}

/// The bytes the encode engine writes for a node.
pub open spec fn encode_node(n: Node) -> Seq<u8> {
    match n {
        Node::Null => enc_null(),
        Node::Bool(b) => enc_bool(b),
        Node::Int(i) => enc_integer(i),
        Node::Big(v) => enc_big_number(v),
        Node::Float(t) => enc_float_text(t),
        Node::Text(t) => enc_bulk(encode_utf8(t)),
        Node::Char(c) => enc_bulk(encode_utf8(seq![c])),
        Node::Bytes(b) => enc_bulk(b),
        Node::Items(c) => enc_array_header(Some(c)),
        Node::Pairs(c) => enc_map_header(c),
        Node::UnitVariant(name) => enc_bulk(encode_utf8(name)),
        Node::Variant(name) => enc_variant_header(encode_utf8(name)),
    }
}

/// What the decode call for the kind of `expected` reads from `s`: a Null
/// unit, a boolean, a signed 64-bit or unsigned 64-bit integer, a float's
/// text, text, one character, raw bytes, a sequence or map header, or the start of a tagged union.
pub open spec fn read_node(s: Seq<u8>, expected: Node) -> Result<(Node, int), Fault> {
    match expected {
        Node::Null => match parse_null(s) {
            Ok(k) => Ok((Node::Null, k)),
            Err(f) => Err(f),
        },
        Node::Bool(_) => match parse_bool(s) {
            Ok((b, k)) => Ok((Node::Bool(b), k)),
            Err(f) => Err(f),
        },
        Node::Int(_) => match parse_integer(s, i64::MIN as int, i64::MAX as int) {
            Ok((v, k)) => Ok((Node::Int(v), k)),
            Err(f) => Err(f),
        },
        Node::Big(_) => match parse_integer(s, 0, u64::MAX as int) {
            Ok((v, k)) => Ok((Node::Big(v as nat), k)),
            Err(f) => Err(f),
        },
        Node::Float(_) => match parse_number_text(s) {
            Ok((t, k)) => Ok((Node::Float(t), k)),
            Err(f) => Err(f),
        },
        Node::Text(_) => match parse_string(s) {
            Ok((t, k)) => Ok((Node::Text(t), k)),
            Err(f) => Err(f),
        },
        Node::Char(_) => match parse_char(s) {
            Ok((c, k)) => Ok((Node::Char(c), k)),
            Err(f) => Err(f),
        },
        Node::Bytes(_) => match parse_bulk_bytes(s) {
            Ok((b, k)) => Ok((Node::Bytes(b), k)),
            Err(f) => Err(f),
        },
        Node::Items(_) => match parse_header(s, true) {
            Ok((c, k)) => Ok((Node::Items(c), k)),
            Err(f) => Err(f),
        },
        Node::Pairs(_) => match parse_header(s, false) {
            Ok((c, k)) => Ok((Node::Pairs(c), k)),
            Err(f) => Err(f),
        },
        Node::UnitVariant(_) | Node::Variant(_) => match parse_variant(s) {
            Ok(((name, tagged), k)) => Ok(
                (
                    if tagged {
                        Node::Variant(name)
                    } else {
                        Node::UnitVariant(name)
                    },
                    k,
                ),
            ),
            Err(f) => Err(f),
        },
    }
}

/// A node the engines can carry: integers within their 64-bit range, a
/// float's text made of numeric bytes, and lengths and counts that fit in
/// `usize`.
pub open spec fn encodable(n: Node) -> bool {
    match n {
        Node::Int(i) => i64::MIN <= i <= i64::MAX,
        Node::Big(v) => v <= u64::MAX,
        Node::Float(t) => forall|j: int| 0 <= j < t.len() ==> is_numeric(#[trigger] t[j]),
        Node::Text(t) => encode_utf8(t).len() <= usize::MAX,
        Node::Bytes(b) => b.len() <= usize::MAX,
        Node::Items(c) => c <= usize::MAX,
        Node::Pairs(c) => c <= usize::MAX,
        Node::UnitVariant(name) => encode_utf8(name).len() <= usize::MAX,
        Node::Variant(name) => encode_utf8(name).len() <= usize::MAX,
        _ => true,
    }
}

/// The bytes written for a whole walk.
pub open spec fn encode_walk(nodes: Seq<Node>) -> Seq<u8>
    decreases nodes.len(),
{
    if nodes.len() == 0 {
        Seq::empty()
    } else {
        encode_node(nodes[0]) + encode_walk(nodes.drop_first())
    }
}

/// What a consumer that expects the walk `expected` reads from `s`, node by
/// node, and how many bytes it takes.
pub open spec fn read_walk(s: Seq<u8>, expected: Seq<Node>) -> Result<(Seq<Node>, int), Fault>
    decreases expected.len(),
{
    if expected.len() == 0 {
        Ok((Seq::empty(), 0))
    } else {
        match read_node(s, expected[0]) {
            Err(f) => Err(f),
            Ok((n, k)) => if 0 <= k <= s.len() {
                match read_walk(s.skip(k), expected.drop_first()) {
                    Err(f) => Err(f),
                    Ok((ns, j)) => Ok((seq![n] + ns, k + j)),
                }
            } else {
                Err(Fault::End)
            },
        }
    }
}

/// Round trip of one node: what is written for it reads back as it, and
/// takes exactly its bytes, whatever follows.
pub proof fn lemma_round_trip_node(n: Node, rest: Seq<u8>)
    requires
        encodable(n),
    ensures
        read_node(encode_node(n) + rest, n) == Ok::<(Node, int), Fault>(
            (n, encode_node(n).len() as int),
        ),
{
    match n {
        Node::Null => lemma_round_trip_null(rest),
        Node::Bool(b) => lemma_round_trip_bool(b, rest),
        Node::Int(i) => lemma_round_trip_integer(i, i64::MIN as int, i64::MAX as int, rest),
        Node::Big(v) => lemma_round_trip_big_number(v, 0, u64::MAX as int, rest),
        Node::Float(t) => lemma_round_trip_float_text(t, rest),
        Node::Text(t) => lemma_round_trip_string(t, rest),
        Node::Char(c) => lemma_round_trip_char(c, rest),
        Node::Bytes(b) => lemma_round_trip_bytes(b, rest),
        Node::Items(c) => lemma_round_trip_seq_header(c, rest),
        Node::Pairs(c) => lemma_round_trip_map_header(c, rest),
        Node::UnitVariant(name) => lemma_round_trip_unit_variant(name, rest),
        Node::Variant(name) => lemma_round_trip_variant(name, rest),
    }
}

/// Round trip of a whole value: for every walk of encodable nodes, a
/// consumer that expects that walk reads back exactly those nodes from what
/// the encode engine wrote, and takes exactly those bytes, whatever follows.
/// (The lossy cases lie outside the walk: a present unit and an absent value
/// have the same walk, `Null`.)
pub proof fn lemma_round_trip(nodes: Seq<Node>, rest: Seq<u8>)
    requires
        forall|i: int| 0 <= i < nodes.len() ==> encodable(#[trigger] nodes[i]),
    ensures
        read_walk(encode_walk(nodes) + rest, nodes) == Ok::<(Seq<Node>, int), Fault>(
            (nodes, encode_walk(nodes).len() as int),
        ),
    decreases nodes.len(),
{
    if nodes.len() > 0 {
        let head = nodes[0];
        let tail = nodes.drop_first();
        let after = encode_walk(tail) + rest;
        assert(encode_walk(nodes) + rest =~= encode_node(head) + after);
        lemma_round_trip_node(head, after);
        let k = encode_node(head).len() as int;
        assert((encode_node(head) + after).skip(k) =~= after);
        assert forall|i: int| 0 <= i < tail.len() implies encodable(#[trigger] tail[i]) by {
            assert(tail[i] == nodes[i + 1]);
        }
        lemma_round_trip(tail, rest);
        assert(seq![head] + tail =~= nodes);
        assert(encode_walk(nodes).len() == k + encode_walk(tail).len());
    } else {
        assert(nodes =~= Seq::<Node>::empty());
    }
}

} // verus!
