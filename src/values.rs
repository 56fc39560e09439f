use vstd::prelude::*;
use crate::bytes::{append, zero_page};
use crate::error::StorageError;
use crate::hashing::{
    be32_spec, be64_spec, be_u32_bytes, be_u64_bytes, lemma_be32_injective, lemma_be64_injective,
    read_be_u32_at, read_be_u64_at, zero_page_spec,
};

verus! {

/// The most values that one encoding holds: their count takes one byte.
pub const MAX_VALUES: usize = 255;

/// The bytes that `nvalues` encoded values can take at most: one for the
/// count, then for each value one type byte and up to eight value bytes.
pub open spec fn capacity_spec(nvalues: nat) -> nat {
    1 + 9 * nvalues
}

/// The bytes that `nvalues` encoded values can take at most.
pub fn wasm_values_capacity(nvalues: usize) -> (r: usize)
    requires
        nvalues <= MAX_VALUES,
    ensures
        r == capacity_spec(nvalues as nat),
{
    1 + nvalues * 9
}

/// A zeroed buffer large enough for `nvalues` encoded values.
pub fn alloc_wasm_values(nvalues: usize) -> (r: Vec<u8>)
    requires
        nvalues <= MAX_VALUES,
    ensures
        r@ == zero_page_spec(capacity_spec(nvalues as nat)),
{
    zero_page(wasm_values_capacity(nvalues))
}

/// The type byte of a 32-bit value.
pub const I32_TYPE: u8 = 0;

/// The type byte of a 64-bit value.
pub const I64_TYPE: u8 = 1;

/// A WASM value passed in or out of a contract: floats are not supported.
#[derive(Debug, Clone, Copy, PartialEq, Eq, Structural)]
pub enum WasmValue {
    /// A 32-bit integer.
    I32(u32),
    /// A 64-bit integer.
    I64(u64),
}

/// One value's encoding: its type byte, then its bytes in big-endian.
pub open spec fn encode_value_spec(v: WasmValue) -> Seq<u8> {
    match v {
        WasmValue::I32(x) => seq![I32_TYPE].add(be32_spec(x)),
        WasmValue::I64(x) => seq![I64_TYPE].add(be64_spec(x)),
    }
}

/// The encodings of `values`, one after the other.
pub open spec fn encode_items_spec(values: Seq<WasmValue>) -> Seq<u8>
    decreases values.len(),
{
    if values.len() == 0 {
        Seq::empty()
    } else {
        encode_items_spec(values.drop_last()).add(encode_value_spec(values.last()))
    }
}

/// The encoding of `values`: their count in one byte, then each value.
pub open spec fn encode_spec(values: Seq<WasmValue>) -> Seq<u8> {
    seq![values.len() as u8].add(encode_items_spec(values))
}

/// The number whose big-endian bytes are the four of `s`.
pub open spec fn be32_value(s: Seq<u8>) -> u32 {
    choose|x: u32| be32_spec(x) == s
}

/// The number whose big-endian bytes are the eight of `s`.
pub open spec fn be64_value(s: Seq<u8>) -> u64 {
    choose|x: u64| be64_spec(x) == s
}

/// `count` values read from the front of `rest`, or `None` where `rest` runs
/// out or holds an unknown type byte first.
pub open spec fn parse_values(rest: Seq<u8>, count: nat) -> Option<Seq<WasmValue>>
    decreases count,
{
    if count == 0 {
        Some(Seq::empty())
    } else if rest.len() == 0 {
        None
    } else if rest[0] == I32_TYPE && rest.len() >= 5 {
        match parse_values(rest.skip(5), (count - 1) as nat) {
            Some(vs) => Some(seq![WasmValue::I32(be32_value(rest.subrange(1, 5)))].add(vs)),
            None => None,
        }
    } else if rest[0] == I64_TYPE && rest.len() >= 9 {
        match parse_values(rest.skip(9), (count - 1) as nat) {
            Some(vs) => Some(seq![WasmValue::I64(be64_value(rest.subrange(1, 9)))].add(vs)),
            None => None,
        }
    } else {
        None
    }
}

/// The values that `bytes` encodes: a count byte, then that many values;
/// bytes after them are not read.
pub open spec fn decode_spec(bytes: Seq<u8>) -> Option<Seq<WasmValue>> {
    if bytes.len() == 0 {
        None
    } else {
        parse_values(bytes.skip(1), bytes[0] as nat)
    }
}

/// `prefix` before what `rest` holds, if it holds anything.
pub open spec fn prepend(prefix: Seq<WasmValue>, rest: Option<Seq<WasmValue>>) -> Option<Seq<WasmValue>> {
    match rest {
        Some(vs) => Some(prefix.add(vs)),
        None => None,
    }
}

proof fn lemma_be32_value(x: u32)
    ensures
        be32_value(be32_spec(x)) == x,
{
    lemma_be32_injective(x, be32_value(be32_spec(x)));
}

proof fn lemma_be64_value(x: u64)
    ensures
        be64_value(be64_spec(x)) == x,
{
    lemma_be64_injective(x, be64_value(be64_spec(x)));
}

/// The encoding of a non-empty list starts with its first value's encoding.
proof fn lemma_encode_items_front(values: Seq<WasmValue>)
    requires
        values.len() > 0,
    ensures
        encode_items_spec(values) == encode_value_spec(values[0]).add(encode_items_spec(values.skip(1))),
    decreases values.len(),
{
    if values.len() == 1 {
        assert(values.drop_last() =~= Seq::<WasmValue>::empty());
        assert(values.skip(1) =~= Seq::<WasmValue>::empty());
        assert(encode_items_spec(values.drop_last()) =~= Seq::<u8>::empty());
        assert(encode_items_spec(values) =~= encode_value_spec(values[0]));
        assert(encode_value_spec(values[0]).add(Seq::<u8>::empty()) =~= encode_value_spec(values[0]));
    } else {
        let init = values.drop_last();
        lemma_encode_items_front(init);
        let rest = values.skip(1);
        assert(rest.drop_last() =~= init.skip(1));
        assert(rest.last() == values.last());
        assert(encode_items_spec(values) =~= encode_value_spec(values[0]).add(encode_items_spec(rest)));
    }
}

/// Reading `values.len() + more` values from the encoding of `values`
/// followed by `tail` gives `values`, then what `tail` holds.
proof fn lemma_parse_encoded(values: Seq<WasmValue>, tail: Seq<u8>, more: nat)
    ensures
        parse_values(encode_items_spec(values).add(tail), values.len() + more) == prepend(
            values,
            parse_values(tail, more),
        ),
    decreases values.len(),
{
    if values.len() == 0 {
        assert(encode_items_spec(values).add(tail) =~= tail);
        match parse_values(tail, more) {
            Some(ws) => {
                assert(values.add(ws) =~= ws);
            },
            None => {},
        }
    } else {
        let v = values[0];
        let rest = values.skip(1);
        lemma_encode_items_front(values);
        lemma_parse_encoded(rest, tail, more);
        let bytes = encode_items_spec(values).add(tail);
        let n = (values.len() + more) as nat;
        assert(rest.len() + more == n - 1);
        match v {
            WasmValue::I32(x) => {
                assert(bytes =~= seq![I32_TYPE].add(be32_spec(x)).add(encode_items_spec(rest).add(tail)));
                assert(bytes.subrange(1, 5) =~= be32_spec(x));
                assert(bytes.skip(5) =~= encode_items_spec(rest).add(tail));
                lemma_be32_value(x);
            },
            WasmValue::I64(x) => {
                assert(bytes =~= seq![I64_TYPE].add(be64_spec(x)).add(encode_items_spec(rest).add(tail)));
                assert(bytes.subrange(1, 9) =~= be64_spec(x));
                assert(bytes.skip(9) =~= encode_items_spec(rest).add(tail));
                lemma_be64_value(x);
            },
        }
        match parse_values(tail, more) {
            Some(ws) => {
                assert(seq![v].add(rest.add(ws)) =~= values.add(ws));
            },
            None => {},
        }
    }
}

/// Decoding what encoding gives yields the values encoded.
pub proof fn lemma_decode_encode(values: Seq<WasmValue>)
    requires
        values.len() <= MAX_VALUES,
    ensures
        decode_spec(encode_spec(values)) == Some(values),
{
    let bytes = encode_spec(values);
    assert(bytes.skip(1) =~= encode_items_spec(values).add(Seq::<u8>::empty()));
    lemma_parse_encoded(values, Seq::<u8>::empty(), 0);
    assert(values.add(Seq::<WasmValue>::empty()) =~= values);
}

/// Reading `values.len()` values from a strict prefix of their encoding fails.
proof fn lemma_parse_truncated(values: Seq<WasmValue>, prefix: Seq<u8>)
    requires
        values.len() > 0,
        prefix.len() < encode_items_spec(values).len(),
        prefix == encode_items_spec(values).take(prefix.len() as int),
    ensures
        parse_values(prefix, values.len()) is None,
    decreases values.len(),
{
    lemma_encode_items_front(values);
    let v = values[0];
    let rest = values.skip(1);
    let e0 = encode_value_spec(v);
    let full = encode_items_spec(values);
    if prefix.len() > 0 {
        assert(prefix[0] == full[0]);
        assert(full[0] == e0[0]);
        if prefix.len() >= e0.len() {
            assert(rest.len() > 0) by {
                if rest.len() == 0 {
                    assert(encode_items_spec(rest) =~= Seq::<u8>::empty());
                    assert(full =~= e0);
                }
            }
            let tail = prefix.skip(e0.len() as int);
            assert(tail =~= encode_items_spec(rest).take(tail.len() as int));
            lemma_parse_truncated(rest, tail);
            assert(rest.len() == values.len() - 1);
        }
    }
}

/// Decoding a strict prefix of an encoding fails: a value cut short is
/// rejected, never padded or dropped.
pub proof fn lemma_decode_truncated(values: Seq<WasmValue>, cut: nat)
    requires
        values.len() <= MAX_VALUES,
        cut < encode_spec(values).len(),
    ensures
        decode_spec(encode_spec(values).take(cut as int)) is None,
{
    let bytes = encode_spec(values).take(cut as int);
    if cut > 0 {
        assert(bytes[0] == values.len() as u8);
        if values.len() == 0 {
            assert(encode_items_spec(values) =~= Seq::<u8>::empty());
        } else {
            let items = encode_items_spec(values);
            assert(bytes.skip(1) =~= items.take(cut - 1));
            lemma_parse_truncated(values, bytes.skip(1));
        }
    }
}

/// Encodes `values`: their count in one byte, then for each its type byte
/// and its bytes in big-endian.
pub fn encode_wasm_values(values: &Vec<WasmValue>) -> (r: Vec<u8>)
    requires
        values@.len() <= MAX_VALUES,
    ensures
        r@ == encode_spec(values@),
{
    let mut r: Vec<u8> = Vec::new();
    r.push(values.len() as u8);
    let mut i: usize = 0;
    while i < values.len()
        invariant
            0 <= i <= values@.len(),
            r@ == seq![values@.len() as u8].add(encode_items_spec(values@.take(i as int))),
        decreases values@.len() - i,
    {
        match values[i] {
            WasmValue::I32(x) => {
                r.push(I32_TYPE);
                let be = be_u32_bytes(x);
                append(&mut r, be.as_slice());
            },
            WasmValue::I64(x) => {
                r.push(I64_TYPE);
                let be = be_u64_bytes(x);
                append(&mut r, be.as_slice());
            },
        }
        proof {
            let t = values@.take(i + 1);
            assert(t.drop_last() =~= values@.take(i as int));
            assert(t.last() == values@[i as int]);
        }
        assert(r@ =~= seq![values@.len() as u8].add(encode_items_spec(values@.take(i + 1))));
        i = i + 1;
    }
    assert(values@.take(values@.len() as int) =~= values@);
    r
}

/// Decodes the values that `bytes` encodes; fails where `bytes` is empty,
/// runs out before the count is reached, or holds an unknown type byte.
pub fn decode_wasm_values(bytes: &[u8]) -> (r: Result<Vec<WasmValue>, StorageError>)
    ensures
        r matches Ok(vs) ==> decode_spec(bytes@) == Some(vs@),
        r is Err ==> decode_spec(bytes@) is None && r == Err::<Vec<WasmValue>, StorageError>(StorageError::MalformedEncoding),
{
    if bytes.len() == 0 {
        return Err(StorageError::MalformedEncoding);
    }
    let n = bytes[0];
    let len = bytes.len();
    let mut out: Vec<WasmValue> = Vec::new();
    let mut pos: usize = 1;
    let mut i: u8 = 0;
    while i < n
        invariant
            len == bytes@.len(),
            1 <= pos <= len,
            0 <= i <= n,
            n == bytes@[0],
            decode_spec(bytes@) == prepend(out@, parse_values(bytes@.skip(pos as int), (n - i) as nat)),
        decreases n - i,
    {
        let ghost rest = bytes@.skip(pos as int);
        let ghost k = (n - i) as nat;
        if pos >= len {
            return Err(StorageError::MalformedEncoding);
        }
        let ty = bytes[pos];
        if ty == I32_TYPE && len - pos >= 5 {
            let x = read_be_u32_at(bytes, pos + 1);
            proof {
                assert(rest.subrange(1, 5) =~= bytes@.subrange(pos + 1, pos + 5));
                lemma_be32_injective(x, be32_value(rest.subrange(1, 5)));
                assert(rest.skip(5) =~= bytes@.skip(pos + 5));
                let tail = parse_values(rest.skip(5), (k - 1) as nat);
                if let Some(vs) = tail {
                    assert(out@.add(seq![WasmValue::I32(x)].add(vs)) =~= out@.push(WasmValue::I32(x)).add(vs));
                }
            }
            out.push(WasmValue::I32(x));
            pos = pos + 5;
        } else if ty == I64_TYPE && len - pos >= 9 {
            let x = read_be_u64_at(bytes, pos + 1);
            proof {
                assert(rest.subrange(1, 9) =~= bytes@.subrange(pos + 1, pos + 9));
                lemma_be64_injective(x, be64_value(rest.subrange(1, 9)));
                assert(rest.skip(9) =~= bytes@.skip(pos + 9));
                let tail = parse_values(rest.skip(9), (k - 1) as nat);
                if let Some(vs) = tail {
                    assert(out@.add(seq![WasmValue::I64(x)].add(vs)) =~= out@.push(WasmValue::I64(x)).add(vs));
                }
            }
            out.push(WasmValue::I64(x));
            pos = pos + 9;
        } else {
            return Err(StorageError::MalformedEncoding);
        }
        i = i + 1;
    }
    assert(out@.add(Seq::<WasmValue>::empty()) =~= out@);
    Ok(out)
}

} // verus!
