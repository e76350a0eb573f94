//! A hash that is the same in every process: FNV-1a over bytes.

use vstd::prelude::*;
use crate::bytes::{text_bytes, utf8};
use crate::types::{Datum, Value};

verus! {

/// The hash of no bytes.
pub const FNV_OFFSET: u64 = 0xcbf2_9ce4_8422_2325;

/// What a hash is multiplied with for each byte.
pub const FNV_PRIME: u64 = 0x0000_0100_0000_01b3;

/// The hash behind one more byte.
pub open spec fn mixed(hash: u64, byte: u8) -> u64 {
    (hash ^ (byte as u64)).wrapping_mul(FNV_PRIME)
}

/// The hash behind the first `n` bytes of a list.
pub open spec fn mixed_bytes(hash: u64, bytes: Seq<u8>, n: int) -> u64
    decreases n,
{
    if n <= 0 {
        hash
    } else {
        mixed(mixed_bytes(hash, bytes, n - 1), bytes[n - 1])
    }
}

/// The hash behind the lowest `n` bytes of a word, lowest first.
pub open spec fn mixed_word(hash: u64, word: u64, n: nat) -> u64
    decreases n,
{
    if n == 0 {
        hash
    } else {
        mixed(
            mixed_word(hash, word, (n - 1) as nat),
            ((word >> ((8 * (n - 1)) as u64)) & 0xff) as u8,
        )
    }
}

/// Takes one more byte into a hash.
pub fn mix(hash: u64, byte: u8) -> (r: u64)
    ensures
        r == mixed(hash, byte),
{
    (hash ^ (byte as u64)).wrapping_mul(FNV_PRIME)
}

/// Takes bytes into a hash.
pub fn mix_bytes(hash: u64, bytes: &Vec<u8>) -> (r: u64)
    ensures
        r == mixed_bytes(hash, bytes@, bytes@.len() as int),
{
    let mut r = hash;
    let mut i: usize = 0;
    while i < bytes.len()
        invariant
            i <= bytes.len(),
            r == mixed_bytes(hash, bytes@, i as int),
        decreases bytes.len() - i,
    {
        r = mix(r, bytes[i]);
        i = i + 1;
    }
    r
}

/// Takes the eight bytes of a word into a hash, lowest first.
pub fn mix_word(hash: u64, word: u64) -> (r: u64)
    ensures
        r == mixed_word(hash, word, 8),
{
    let mut r = hash;
    let mut i: u64 = 0;
    while i < 8
        invariant
            i <= 8,
            r == mixed_word(hash, word, i as nat),
        decreases 8 - i,
    {
        let byte = ((word >> (8 * i)) & 0xff) as u8;
        r = mix(r, byte);
        i = i + 1;
    }
    r
}

/// The hash behind a value: a byte for its kind, and its bytes.
pub open spec fn mixed_datum(hash: u64, d: Datum) -> u64 {
    match d {
        Datum::Null => mixed(hash, 0),
        Datum::Int64(i) => mixed_word(mixed(hash, 1), i as u64, 8),
        Datum::Float64(bits) => mixed_word(mixed(hash, 2), bits, 8),
        Datum::Bool(b) => mixed(mixed(hash, 3), if b { 1 } else { 0 }),
        Datum::Text(s) => mixed_bytes(
            mixed_word(mixed(hash, 4), utf8(s).len() as u64, 8),
            utf8(s),
            utf8(s).len() as int,
        ),
    }
}

/// Takes a value into a hash.
pub fn mix_value(hash: u64, value: &Value) -> (r: u64)
    ensures
        r == mixed_datum(hash, value@),
{
    match value {
        Value::Null => mix(hash, 0),
        Value::Int64(i) => mix_word(mix(hash, 1), *i as u64),
        Value::Float64(bits) => mix_word(mix(hash, 2), *bits),
        Value::Bool(b) => mix(mix(hash, 3), if *b { 1 } else { 0 }),
        Value::String(s) => {
            let bytes = text_bytes(s.as_str());
            mix_bytes(mix_word(mix(hash, 4), bytes.len() as u64), &bytes)
        },
    }
}

/// The hash behind the first `n` values of a list.
pub open spec fn mixed_data(hash: u64, list: Seq<Datum>, n: int) -> u64
    decreases n,
{
    if n <= 0 {
        hash
    } else {
        mixed_datum(mixed_data(hash, list, n - 1), list[n - 1])
    }
}

/// A hash whose bits depend on all bits of another.
pub open spec fn scrambled(hash: u64) -> u64 {
    let a = (hash ^ (hash >> 30)).wrapping_mul(0xbf58_476d_1ce4_e5b9);
    let b = (a ^ (a >> 27)).wrapping_mul(0x94d0_49bb_1331_11eb);
    b ^ (b >> 31)
}

/// Scrambles a hash.
pub fn scramble(hash: u64) -> (r: u64)
    ensures
        r == scrambled(hash),
{
    let a = (hash ^ (hash >> 30u64)).wrapping_mul(0xbf58_476d_1ce4_e5b9);
    let b = (a ^ (a >> 27u64)).wrapping_mul(0x94d0_49bb_1331_11eb);
    b ^ (b >> 31u64)
}

} // verus!
