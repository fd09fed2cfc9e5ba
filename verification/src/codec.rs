//! The field codec. Each primitive field is encoded and decoded by `bincode`;
//! the functions here hand its results on as plain values and keep track of
//! the bytes that a decoded field leaves behind.
//!
//! The private functions that call `bincode` are the only code of the
//! library that is not verified: their contracts state what `bincode` does as
//! its source shows it, and everything else is proved from them.

use crate::wire::{
    i32_bits, i32_of_bits, le_bytes, le_value, lemma_i32_of_bits, lemma_le_bytes_len,
    lemma_le_value_bound, split_str, split_uint, str_wire,
};
use vstd::prelude::*;
use vstd::slice::*;
use vstd::string::*;
use vstd::utf8::*;

verus! {

/// The error type of `bincode`, carried through as an opaque value.
#[verifier::external_type_specification]
#[verifier::external_body]
pub struct ExBincodeErrorKind(bincode::ErrorKind);

/// `bincode::serialize` at `u16`. The function uses fixed-width little-endian
/// integers and sets no size limit: it writes the two bytes of the value, low
/// byte first, into a fresh vector. Neither sizing the value nor writing
/// into a vector can fail, so the result is always `Ok`.
#[verifier::external_body]
fn bincode_u16(value: u16) -> (r: Result<Vec<u8>, bincode::Error>)
    ensures
        match r {
            Ok(bytes) => bytes@ == le_bytes(value as nat, 2),
            Err(_) => false,
        },
{
    bincode::serialize(&value)
}

/// `bincode::serialize` at `u32`: the four bytes of the value, low byte
/// first; always `Ok`, as for `u16`.
#[verifier::external_body]
fn bincode_u32(value: u32) -> (r: Result<Vec<u8>, bincode::Error>)
    ensures
        match r {
            Ok(bytes) => bytes@ == le_bytes(value as nat, 4),
            Err(_) => false,
        },
{
    bincode::serialize(&value)
}

/// `bincode::serialize` at `u64`: the eight bytes of the value, low byte
/// first; always `Ok`, as for `u16`.
#[verifier::external_body]
fn bincode_u64(value: u64) -> (r: Result<Vec<u8>, bincode::Error>)
    ensures
        match r {
            Ok(bytes) => bytes@ == le_bytes(value as nat, 8),
            Err(_) => false,
        },
{
    bincode::serialize(&value)
}

/// `bincode::serialize` at `i32`: the value is reinterpreted as a `u32` with
/// the same bit pattern and written as four bytes, low byte first; always
/// `Ok`, as for `u16`.
#[verifier::external_body]
fn bincode_i32(value: i32) -> (r: Result<Vec<u8>, bincode::Error>)
    ensures
        match r {
            Ok(bytes) => bytes@ == le_bytes(i32_bits(value), 4),
            Err(_) => false,
        },
{
    bincode::serialize(&value)
}

/// `bincode::serialize` at `String`: the length of the string in bytes as a
/// `u64`, low byte first, then the bytes of the string, which are its UTF-8
/// form; always `Ok`, as for `u16`.
#[verifier::external_body]
fn bincode_string(value: &String) -> (r: Result<Vec<u8>, bincode::Error>)
    ensures
        match r {
            Ok(bytes) => bytes@ == str_wire(value@),
            Err(_) => false,
        },
{
    bincode::serialize(value)
}

/// `bincode::deserialize` at `u16`. The function reads from the front of the
/// slice and tolerates bytes after the value: it reads the first two bytes,
/// low byte first, and fails exactly when the input has fewer than two.
#[verifier::external_body]
fn bincode_read_u16(input: &[u8]) -> (r: Result<u16, bincode::Error>)
    ensures
        match r {
            Ok(value) => input@.len() >= 2 && value as nat == le_value(input@.take(2)),
            Err(_) => input@.len() < 2,
        },
{
    bincode::deserialize(input)
}

/// `bincode::deserialize` at `u32`: the first four bytes, low byte first;
/// it fails exactly when the input has fewer than four bytes.
#[verifier::external_body]
fn bincode_read_u32(input: &[u8]) -> (r: Result<u32, bincode::Error>)
    ensures
        match r {
            Ok(value) => input@.len() >= 4 && value as nat == le_value(input@.take(4)),
            Err(_) => input@.len() < 4,
        },
{
    bincode::deserialize(input)
}

/// `bincode::deserialize` at `u64`: the first eight bytes, low byte first;
/// it fails exactly when the input has fewer than eight bytes.
#[verifier::external_body]
fn bincode_read_u64(input: &[u8]) -> (r: Result<u64, bincode::Error>)
    ensures
        match r {
            Ok(value) => input@.len() >= 8 && value as nat == le_value(input@.take(8)),
            Err(_) => input@.len() < 8,
        },
{
    bincode::deserialize(input)
}

/// `bincode::deserialize` at `i32`: the first four bytes are read as a `u32`,
/// low byte first, and reinterpreted as the `i32` with the same bit pattern;
/// it fails exactly when the input has fewer than four bytes.
#[verifier::external_body]
fn bincode_read_i32(input: &[u8]) -> (r: Result<i32, bincode::Error>)
    ensures
        match r {
            Ok(value) => input@.len() >= 4 && value == i32_of_bits(le_value(input@.take(4))),
            Err(_) => input@.len() < 4,
        },
{
    bincode::deserialize(input)
}

/// `bincode::deserialize` at `String`. It reads a `u64` length, low byte
/// first, takes that many of the bytes that follow and turns them into a
/// string with `String::from_utf8`; later bytes are ignored. It fails exactly
/// when the length is cut short, when fewer bytes follow than it announces, or
/// when those bytes are not UTF-8.
#[verifier::external_body]
fn bincode_read_string(input: &[u8]) -> (r: Result<String, bincode::Error>)
    ensures
        match r {
            Ok(text) => split_str(input@) matches Some((chars, _)) && text@ == chars,
            Err(_) => split_str(input@) is None,
        },
{
    bincode::deserialize(input)
}

/// The `Debug` form of a `bincode` error, as text for the caller.
#[verifier::external_body]
fn error_text(error: &bincode::Error) -> String {
    format!("{:?}", error)
}

/// Hands on the bytes that `bincode` produced, or its error as text.
fn finished(encoded: Result<Vec<u8>, bincode::Error>) -> (r: Result<Vec<u8>, String>)
    ensures
        match encoded {
            Ok(bytes) => r == Ok::<Vec<u8>, String>(bytes),
            Err(_) => r is Err,
        },
{
    match encoded {
        Ok(bytes) => Ok(bytes),
        Err(error) => Err(error_text(&error)),
    }
}

/// Encodes a 16-bit unsigned field: two bytes, low byte first.
pub fn encode_u16(value: u16) -> (r: Result<Vec<u8>, String>)
    ensures
        match r {
            Ok(bytes) => bytes@ == le_bytes(value as nat, 2),
            Err(_) => false,
        },
{
    finished(bincode_u16(value))
}

/// Encodes a 32-bit unsigned field: four bytes, low byte first.
pub fn encode_u32(value: u32) -> (r: Result<Vec<u8>, String>)
    ensures
        match r {
            Ok(bytes) => bytes@ == le_bytes(value as nat, 4),
            Err(_) => false,
        },
{
    finished(bincode_u32(value))
}

/// Encodes a 64-bit unsigned field: eight bytes, low byte first.
pub fn encode_u64(value: u64) -> (r: Result<Vec<u8>, String>)
    ensures
        match r {
            Ok(bytes) => bytes@ == le_bytes(value as nat, 8),
            Err(_) => false,
        },
{
    finished(bincode_u64(value))
}

/// Encodes a 32-bit signed field: the four bytes of its two's-complement
/// bit pattern, low byte first.
pub fn encode_i32(value: i32) -> (r: Result<Vec<u8>, String>)
    ensures
        match r {
            Ok(bytes) => bytes@ == le_bytes(i32_bits(value), 4),
            Err(_) => false,
        },
{
    finished(bincode_i32(value))
}

/// Encodes a string field: the length of its UTF-8 form in eight bytes, then
/// that form. The length always fits: the whole encoding is held in memory.
pub fn encode_string(value: &String) -> (r: Result<Vec<u8>, String>)
    ensures
        match r {
            Ok(bytes) => bytes@ == str_wire(value@),
            Err(_) => false,
        },
        encode_utf8(value@).len() <= u64::MAX,
{
    let r = finished(bincode_string(value));
    proof {
        lemma_le_bytes_len(encode_utf8(value@).len(), 8);
        assert(r->Ok_0.len() == 8 + encode_utf8(value@).len());
    }
    r
}

/// Decodes a 16-bit unsigned field from the front of `input` and returns it
/// with the bytes that follow it. Fails exactly when `input` is too short.
pub fn take_u16(input: &[u8]) -> (r: Result<(u16, &[u8]), String>)
    ensures
        match r {
            Ok((value, rest)) => split_uint(input@, 2) == Some((value as nat, rest@)),
            Err(_) => split_uint(input@, 2) is None,
        },
{
    match bincode_read_u16(input) {
        Ok(value) => Ok((value, slice_subrange(input, 2, input.len()))),
        Err(error) => Err(error_text(&error)),
    }
}

/// Decodes a 32-bit unsigned field from the front of `input` and returns it
/// with the bytes that follow it. Fails exactly when `input` is too short.
pub fn take_u32(input: &[u8]) -> (r: Result<(u32, &[u8]), String>)
    ensures
        match r {
            Ok((value, rest)) => split_uint(input@, 4) == Some((value as nat, rest@)),
            Err(_) => split_uint(input@, 4) is None,
        },
{
    match bincode_read_u32(input) {
        Ok(value) => Ok((value, slice_subrange(input, 4, input.len()))),
        Err(error) => Err(error_text(&error)),
    }
}

/// Decodes a 64-bit unsigned field from the front of `input` and returns it
/// with the bytes that follow it. Fails exactly when `input` is too short.
pub fn take_u64(input: &[u8]) -> (r: Result<(u64, &[u8]), String>)
    ensures
        match r {
            Ok((value, rest)) => split_uint(input@, 8) == Some((value as nat, rest@)),
            Err(_) => split_uint(input@, 8) is None,
        },
{
    match bincode_read_u64(input) {
        Ok(value) => Ok((value, slice_subrange(input, 8, input.len()))),
        Err(error) => Err(error_text(&error)),
    }
}

/// Decodes a 32-bit signed field from the front of `input` and returns it
/// with the bytes that follow it. Fails exactly when `input` is too short.
pub fn take_i32(input: &[u8]) -> (r: Result<(i32, &[u8]), String>)
    ensures
        match r {
            Ok((value, rest)) => split_uint(input@, 4) == Some((i32_bits(value), rest@)),
            Err(_) => split_uint(input@, 4) is None,
        },
{
    match bincode_read_i32(input) {
        Ok(value) => {
            proof {
                lemma_le_value_bound(input@.take(4));
                lemma_i32_of_bits(le_value(input@.take(4)));
            }
            Ok((value, slice_subrange(input, 4, input.len())))
        },
        Err(error) => Err(error_text(&error)),
    }
}

/// Decodes a string field from the front of `input` and returns it with the
/// bytes that follow it. Fails exactly when the length prefix is cut short,
/// announces more bytes than follow it, or the bytes it covers are not UTF-8.
pub fn take_string(input: &[u8]) -> (r: Result<(String, &[u8]), String>)
    ensures
        match r {
            Ok((text, rest)) => split_str(input@) == Some((text@, rest@)),
            Err(_) => split_str(input@) is None,
        },
{
    match bincode_read_string(input) {
        Ok(text) => {
            let slice = text.as_str();
            let len = slice.len();
            let total = input.len();
            proof {
                let announced = le_value(input@.take(8));
                let body = input@.skip(8).take(announced as int);
                decode_utf8_encode_utf8(body);
                assert(slice.spec_bytes() == encode_utf8(text@));
                assert(encode_utf8(text@) == body);
                assert(len == announced);
                assert(input@.subrange(8 + len, input@.len() as int) =~= input@.skip(8).skip(
                    announced as int,
                ));
            }
            Ok((text, slice_subrange(input, 8 + len, total)))
        },
        Err(error) => Err(error_text(&error)),
    }
}

} // verus!
