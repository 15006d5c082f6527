//! Packing of a (timestamp, asset index) pair into one 128-bit storage key.
use vstd::prelude::*;

verus! {

/// 2^64: the weight of the timestamp half of a key.
pub open spec fn key_shift() -> int {
    0x1_0000_0000_0000_0000
}

/// The key of a (timestamp, asset index) pair: the timestamp in the upper 64
/// bits, the index in the lowest 8 bits, zero in between.
pub open spec fn price_key(timestamp: u64, index: u8) -> int {
    timestamp as int * key_shift() + index as int
}

/// The timestamp half of a key.
pub open spec fn key_timestamp(key: u128) -> int {
    key as int / key_shift()
}

/// The asset index held in the lowest byte of a key.
pub open spec fn key_index(key: u128) -> int {
    key as int % 256
}

/// A 128-bit key built from a timestamp and an asset index.
pub struct U128Helper(pub u128);

impl U128Helper {
    /// Wraps the key of `(val_u64, val_u8)`.
    pub fn new(val_u64: u64, val_u8: u8) -> (r: Self)
        ensures
            r.0 == price_key(val_u64, val_u8),
    {
        U128Helper(Self::encode_to_u128(val_u64, val_u8))
    }

    /// The key of `(val_u64, val_u8)`.
    pub fn encode_to_u128(val_u64: u64, val_u8: u8) -> (r: u128)
        ensures
            r == price_key(val_u64, val_u8),
    {
        let r = (val_u64 as u128) << 64u128 | val_u8 as u128;
        assert(r == (val_u64 as u128) * 0x1_0000_0000_0000_0000u128 + (val_u8 as u128)) by (bit_vector)
            requires
                r == (val_u64 as u128) << 64u128 | val_u8 as u128,
        ;
        r
    }

    /// Splits the key back into its timestamp and its asset index.
    pub fn decode(&self) -> (r: (u64, u8))
        ensures
            r.0 == key_timestamp(self.0),
            r.1 == key_index(self.0),
    {
        let v = self.0;
        let hi = v >> 64u128;
        let lo = v & 0xFFu128;
        assert(hi == v / 0x1_0000_0000_0000_0000u128 && lo == v % 256) by (bit_vector)
            requires
                hi == v >> 64u128,
                lo == v & 0xFFu128,
        ;
        (hi as u64, lo as u8)
    }
}

/// Decoding an encoded key gives back the timestamp and the index it was
/// built from.
pub proof fn lemma_key_round_trip(timestamp: u64, index: u8)
    ensures
        0 <= price_key(timestamp, index) <= u128::MAX,
        key_timestamp(price_key(timestamp, index) as u128) == timestamp,
        key_index(price_key(timestamp, index) as u128) == index,
{
    let k = price_key(timestamp, index);
    assert(k <= u128::MAX) by (nonlinear_arith)
        requires
            k == timestamp as int * 0x1_0000_0000_0000_0000 + index as int,
            timestamp <= u64::MAX,
            index <= 255,
    ;
    assert(k / 0x1_0000_0000_0000_0000 == timestamp as int) by (nonlinear_arith)
        requires
            k == timestamp as int * 0x1_0000_0000_0000_0000 + index as int,
            0 <= index <= 255,
    ;
    assert(k % 256 == index as int) by (nonlinear_arith)
        requires
            k == timestamp as int * 0x1_0000_0000_0000_0000 + index as int,
            0 <= index <= 255,
            timestamp >= 0,
    ;
}

/// Two pairs that differ give different keys.
pub proof fn lemma_key_injective(t1: u64, i1: u8, t2: u64, i2: u8)
    ensures
        price_key(t1, i1) == price_key(t2, i2) ==> t1 == t2 && i1 == i2,
{
    lemma_key_round_trip(t1, i1);
    lemma_key_round_trip(t2, i2);
}

} // verus!
