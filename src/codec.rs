//! Fixed-width value encoding for keys and values, backed by the SCALE codec.

use vstd::prelude::*;
use crate::bytes::{le_bytes, le_value, lemma_le_bytes_len, lemma_le_round_trip, pow256};


verus! {

/// A type with a fixed-width byte encoding that decodes back to the value.
pub trait Codec: Sized + Copy {
    /// The encoding of `self`.
    spec fn encode_spec(self) -> Seq<u8>;

    /// The value that `bytes` encode, if they encode one exactly.
    spec fn decode_spec(bytes: Seq<u8>) -> Option<Self>;

    /// The length of every encoding.
    spec fn width() -> nat;

    proof fn lemma_round_trip(v: Self)
        ensures
            Self::decode_spec(v.encode_spec()) == Some(v),
            v.encode_spec().len() == Self::width(),
            Self::width() >= 1,
    ;

    proof fn lemma_width()
        ensures
            1 <= Self::width() <= 64,
    ;

    fn width_exec() -> (r: u32)
        ensures
            r == Self::width(),
    ;

    fn encode(&self) -> (r: Vec<u8>)
        ensures
            r@ == self.encode_spec(),
    ;

    fn decode(bytes: &[u8]) -> (r: Option<Self>)
        ensures
            r == Self::decode_spec(bytes@),
    ;
}

/// The SCALE codec's decoding error.
#[verifier::external_type_specification]
#[verifier::external_body]
pub struct ExCodecError(parity_scale_codec::Error);

/// Relies on parity_scale_codec's `Encode` for `u8`: the byte itself.
#[verifier::external_body]
fn scale_encode_u8(v: u8) -> (r: Vec<u8>)
    ensures
        r@ == le_bytes(v as nat, 1),
{
    parity_scale_codec::Encode::encode(&v)
}

/// Relies on parity_scale_codec's `DecodeAll` for `u8`: exactly one byte.
#[verifier::external_body]
fn scale_decode_u8(b: &[u8]) -> (r: Result<u8, parity_scale_codec::Error>)
    ensures
        r is Ok <==> b@.len() == 1,
        r is Ok ==> r.unwrap() == le_value(b@) as u8,
{
    <u8 as parity_scale_codec::DecodeAll>::decode_all(&mut &b[..])
}

/// Relies on parity_scale_codec's `Encode` for `u16`: two little-endian bytes.
#[verifier::external_body]
fn scale_encode_u16(v: u16) -> (r: Vec<u8>)
    ensures
        r@ == le_bytes(v as nat, 2),
{
    parity_scale_codec::Encode::encode(&v)
}

/// Relies on parity_scale_codec's `DecodeAll` for `u16`: exactly two little-endian bytes.
#[verifier::external_body]
fn scale_decode_u16(b: &[u8]) -> (r: Result<u16, parity_scale_codec::Error>)
    ensures
        r is Ok <==> b@.len() == 2,
        r is Ok ==> r.unwrap() == le_value(b@) as u16,
{
    <u16 as parity_scale_codec::DecodeAll>::decode_all(&mut &b[..])
}

/// Relies on parity_scale_codec's `Encode` for `u32`: four little-endian bytes.
#[verifier::external_body]
fn scale_encode_u32(v: u32) -> (r: Vec<u8>)
    ensures
        r@ == le_bytes(v as nat, 4),
{
    parity_scale_codec::Encode::encode(&v)
}

/// Relies on parity_scale_codec's `DecodeAll` for `u32`: exactly four little-endian bytes.
#[verifier::external_body]
fn scale_decode_u32(b: &[u8]) -> (r: Result<u32, parity_scale_codec::Error>)
    ensures
        r is Ok <==> b@.len() == 4,
        r is Ok ==> r.unwrap() == le_value(b@) as u32,
{
    <u32 as parity_scale_codec::DecodeAll>::decode_all(&mut &b[..])
}

/// Relies on parity_scale_codec's `Encode` for `u64`: eight little-endian bytes.
#[verifier::external_body]
fn scale_encode_u64(v: u64) -> (r: Vec<u8>)
    ensures
        r@ == le_bytes(v as nat, 8),
{
    parity_scale_codec::Encode::encode(&v)
}

/// Relies on parity_scale_codec's `DecodeAll` for `u64`: exactly eight little-endian bytes.
#[verifier::external_body]
fn scale_decode_u64(b: &[u8]) -> (r: Result<u64, parity_scale_codec::Error>)
    ensures
        r is Ok <==> b@.len() == 8,
        r is Ok ==> r.unwrap() == le_value(b@) as u64,
{
    <u64 as parity_scale_codec::DecodeAll>::decode_all(&mut &b[..])
}

/// Relies on parity_scale_codec's `Encode` for `u128`: sixteen little-endian bytes.
#[verifier::external_body]
fn scale_encode_u128(v: u128) -> (r: Vec<u8>)
    ensures
        r@ == le_bytes(v as nat, 16),
{
    parity_scale_codec::Encode::encode(&v)
}

/// Relies on parity_scale_codec's `DecodeAll` for `u128`: exactly sixteen little-endian bytes.
#[verifier::external_body]
fn scale_decode_u128(b: &[u8]) -> (r: Result<u128, parity_scale_codec::Error>)
    ensures
        r is Ok <==> b@.len() == 16,
        r is Ok ==> r.unwrap() == le_value(b@) as u128,
{
    <u128 as parity_scale_codec::DecodeAll>::decode_all(&mut &b[..])
}


proof fn lemma_pow256_values()
    ensures
        pow256(1) == 0x100,
        pow256(2) == 0x1_0000,
        pow256(4) == 0x1_0000_0000,
        pow256(8) == 0x1_0000_0000_0000_0000,
        pow256(16) == 0x1_0000_0000_0000_0000_0000_0000_0000_0000,
{
    reveal_with_fuel(pow256, 17);
}

impl Codec for u8 {
    open spec fn encode_spec(self) -> Seq<u8> {
        le_bytes(self as nat, 1)
    }

    open spec fn decode_spec(bytes: Seq<u8>) -> Option<u8> {
        if bytes.len() == 1 { Some(le_value(bytes) as u8) } else { None }
    }

    open spec fn width() -> nat {
        1
    }

    proof fn lemma_round_trip(v: u8) {
        lemma_pow256_values();
        lemma_le_bytes_len(v as nat, 1);
        lemma_le_round_trip(v as nat, 1);
    }

    proof fn lemma_width() {
    }

    fn width_exec() -> (r: u32) {
        1
    }

    fn encode(&self) -> (r: Vec<u8>) {
        scale_encode_u8(*self)
    }

    fn decode(bytes: &[u8]) -> (r: Option<u8>) {
        match scale_decode_u8(bytes) {
            Ok(v) => Some(v),
            Err(_) => None,
        }
    }
}

impl Codec for u16 {
    open spec fn encode_spec(self) -> Seq<u8> {
        le_bytes(self as nat, 2)
    }

    open spec fn decode_spec(bytes: Seq<u8>) -> Option<u16> {
        if bytes.len() == 2 { Some(le_value(bytes) as u16) } else { None }
    }

    open spec fn width() -> nat {
        2
    }

    proof fn lemma_round_trip(v: u16) {
        lemma_pow256_values();
        lemma_le_bytes_len(v as nat, 2);
        lemma_le_round_trip(v as nat, 2);
    }

    proof fn lemma_width() {
    }

    fn width_exec() -> (r: u32) {
        2
    }

    fn encode(&self) -> (r: Vec<u8>) {
        scale_encode_u16(*self)
    }

    fn decode(bytes: &[u8]) -> (r: Option<u16>) {
        match scale_decode_u16(bytes) {
            Ok(v) => Some(v),
            Err(_) => None,
        }
    }
}

impl Codec for u32 {
    open spec fn encode_spec(self) -> Seq<u8> {
        le_bytes(self as nat, 4)
    }

    open spec fn decode_spec(bytes: Seq<u8>) -> Option<u32> {
        if bytes.len() == 4 { Some(le_value(bytes) as u32) } else { None }
    }

    open spec fn width() -> nat {
        4
    }

    proof fn lemma_round_trip(v: u32) {
        lemma_pow256_values();
        lemma_le_bytes_len(v as nat, 4);
        lemma_le_round_trip(v as nat, 4);
    }

    proof fn lemma_width() {
    }

    fn width_exec() -> (r: u32) {
        4
    }

    fn encode(&self) -> (r: Vec<u8>) {
        scale_encode_u32(*self)
    }

    fn decode(bytes: &[u8]) -> (r: Option<u32>) {
        match scale_decode_u32(bytes) {
            Ok(v) => Some(v),
            Err(_) => None,
        }
    }
}

impl Codec for u64 {
    open spec fn encode_spec(self) -> Seq<u8> {
        le_bytes(self as nat, 8)
    }

    open spec fn decode_spec(bytes: Seq<u8>) -> Option<u64> {
        if bytes.len() == 8 { Some(le_value(bytes) as u64) } else { None }
    }

    open spec fn width() -> nat {
        8
    }

    proof fn lemma_round_trip(v: u64) {
        lemma_pow256_values();
        lemma_le_bytes_len(v as nat, 8);
        lemma_le_round_trip(v as nat, 8);
    }

    proof fn lemma_width() {
    }

    fn width_exec() -> (r: u32) {
        8
    }

    fn encode(&self) -> (r: Vec<u8>) {
        scale_encode_u64(*self)
    }

    fn decode(bytes: &[u8]) -> (r: Option<u64>) {
        match scale_decode_u64(bytes) {
            Ok(v) => Some(v),
            Err(_) => None,
        }
    }
}

impl Codec for u128 {
    open spec fn encode_spec(self) -> Seq<u8> {
        le_bytes(self as nat, 16)
    }

    open spec fn decode_spec(bytes: Seq<u8>) -> Option<u128> {
        if bytes.len() == 16 { Some(le_value(bytes) as u128) } else { None }
    }

    open spec fn width() -> nat {
        16
    }

    proof fn lemma_round_trip(v: u128) {
        lemma_pow256_values();
        lemma_le_bytes_len(v as nat, 16);
        lemma_le_round_trip(v as nat, 16);
    }

    proof fn lemma_width() {
    }

    fn width_exec() -> (r: u32) {
        16
    }

    fn encode(&self) -> (r: Vec<u8>) {
        scale_encode_u128(*self)
    }

    fn decode(bytes: &[u8]) -> (r: Option<u128>) {
        match scale_decode_u128(bytes) {
            Ok(v) => Some(v),
            Err(_) => None,
        }
    }
}

} // verus!
