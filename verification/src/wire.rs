//! The byte-level model of the encoding: little-endian integers of fixed
//! width, two's-complement signed integers and length-prefixed UTF-8 strings,
//! each with the function that reads it back from the front of an input.

use vstd::prelude::*;
use vstd::utf8::*;

verus! {

/// The number of values that `width` bytes can tell apart: 256 to the power `width`.
pub open spec fn radix(width: nat) -> nat
    decreases width,
{
    if width == 0 {
        1
    } else {
        256 * radix((width - 1) as nat)
    }
}

/// The `width` low-order base-256 digits of `value`, least significant first.
pub open spec fn le_bytes(value: nat, width: nat) -> Seq<u8>
    decreases width,
{
    if width == 0 {
        Seq::empty()
    } else {
        seq![(value % 256) as u8] + le_bytes(value / 256, (width - 1) as nat)
    }
}

/// The number whose base-256 digits, least significant first, are `bytes`.
pub open spec fn le_value(bytes: Seq<u8>) -> nat
    decreases bytes.len(),
{
    if bytes.len() == 0 {
        0
    } else {
        bytes[0] as nat + 256 * le_value(bytes.skip(1))
    }
}

/// The unsigned 32-bit number with the same two's-complement bit pattern as `value`.
pub open spec fn i32_bits(value: i32) -> nat {
    if value >= 0 {
        value as nat
    } else {
        (value + 0x1_0000_0000) as nat
    }
}

/// The signed number whose two's-complement bit pattern is `bits`.
pub open spec fn i32_of_bits(bits: nat) -> i32 {
    if bits < 0x8000_0000 {
        bits as i32
    } else {
        (bits - 0x1_0000_0000) as i32
    }
}

/// The encoding of a string: the length of its UTF-8 form in eight bytes, then that form.
pub open spec fn str_wire(text: Seq<char>) -> Seq<u8> {
    le_bytes(encode_utf8(text).len(), 8) + encode_utf8(text)
}

/// Reads an unsigned integer of `width` bytes from the front of `input`:
/// its value and the bytes that follow it, or `None` where `input` is too short.
pub open spec fn split_uint(input: Seq<u8>, width: nat) -> Option<(nat, Seq<u8>)> {
    if input.len() >= width {
        Some((le_value(input.take(width as int)), input.skip(width as int)))
    } else {
        None
    }
}

/// Reads a string from the front of `input`: its characters and the bytes
/// that follow it. `None` where the length prefix is cut short, announces more
/// bytes than follow it, or the bytes it covers are not UTF-8.
pub open spec fn split_str(input: Seq<u8>) -> Option<(Seq<char>, Seq<u8>)> {
    match split_uint(input, 8) {
        Some((len, rest)) => {
            if len <= rest.len() && valid_utf8(rest.take(len as int)) {
                Some((decode_utf8(rest.take(len as int)), rest.skip(len as int)))
            } else {
                None
            }
        },
        None => None,
    }
}

/// The radix of the three widths that the protocol uses.
pub proof fn lemma_radix_values()
    ensures
        radix(2) == 0x1_0000,
        radix(4) == 0x1_0000_0000,
        radix(8) == 0x1_0000_0000_0000_0000,
{
    reveal_with_fuel(radix, 9);
}

/// An integer is encoded in exactly as many bytes as its width.
pub proof fn lemma_le_bytes_len(value: nat, width: nat)
    ensures
        le_bytes(value, width).len() == width,
    decreases width,
{
    if width > 0 {
        lemma_le_bytes_len(value / 256, (width - 1) as nat);
    }
}

/// What a byte string stands for is below the radix of its length.
pub proof fn lemma_le_value_bound(bytes: Seq<u8>)
    ensures
        le_value(bytes) < radix(bytes.len()),
    decreases bytes.len(),
{
    if bytes.len() > 0 {
        lemma_le_value_bound(bytes.skip(1));
    }
}

/// Reading back the encoding of a value that fits its width gives the value.
pub proof fn lemma_le_value_of_bytes(value: nat, width: nat)
    requires
        value < radix(width),
    ensures
        le_value(le_bytes(value, width)) == value,
    decreases width,
{
    if width > 0 {
        let rest = le_bytes(value / 256, (width - 1) as nat);
        let all = le_bytes(value, width);
        lemma_le_value_of_bytes(value / 256, (width - 1) as nat);
        assert(all.skip(1) =~= rest);
        assert(all[0] == (value % 256) as u8);
    }
}

/// Encoding what a byte string stands for, at the string's own width, gives the string.
pub proof fn lemma_le_bytes_of_value(bytes: Seq<u8>)
    ensures
        le_bytes(le_value(bytes), bytes.len()) == bytes,
    decreases bytes.len(),
{
    if bytes.len() > 0 {
        let value = le_value(bytes);
        lemma_le_bytes_of_value(bytes.skip(1));
        assert(value / 256 == le_value(bytes.skip(1)));
        assert(value % 256 == bytes[0]);
        assert(le_bytes(value, bytes.len()) =~= bytes);
    } else {
        assert(le_bytes(le_value(bytes), bytes.len()) =~= bytes);
    }
}

/// The bit pattern of a signed integer fits in four bytes and names that integer alone.
pub proof fn lemma_i32_bits(value: i32)
    ensures
        i32_bits(value) < radix(4),
        i32_of_bits(i32_bits(value)) == value,
{
    lemma_radix_values();
}

/// Every four-byte pattern is the bit pattern of the signed integer it stands for.
pub proof fn lemma_i32_of_bits(bits: nat)
    requires
        bits < radix(4),
    ensures
        i32_bits(i32_of_bits(bits)) == bits,
{
    lemma_radix_values();
}

/// Reading an integer back from the front of its encoding, whatever follows,
/// gives the integer and leaves what follows.
pub proof fn lemma_split_uint_of_wire(value: nat, width: nat, tail: Seq<u8>)
    requires
        value < radix(width),
    ensures
        split_uint(le_bytes(value, width) + tail, width) == Some((value, tail)),
{
    let head = le_bytes(value, width);
    lemma_le_bytes_len(value, width);
    lemma_le_value_of_bytes(value, width);
    assert((head + tail).take(width as int) =~= head);
    assert((head + tail).skip(width as int) =~= tail);
}

/// An input from which an integer can be read is the encoding of that
/// integer followed by the bytes that the reading leaves.
pub proof fn lemma_split_uint_is_inverse(input: Seq<u8>, width: nat, value: nat, rest: Seq<u8>)
    requires
        split_uint(input, width) == Some((value, rest)),
    ensures
        value < radix(width),
        input == le_bytes(value, width) + rest,
{
    let head = input.take(width as int);
    lemma_le_value_bound(head);
    lemma_le_bytes_of_value(head);
    assert(input =~= head + input.skip(width as int));
}

/// Reading a string back from the front of its encoding, whatever follows,
/// gives the string and leaves what follows.
pub proof fn lemma_split_str_of_wire(text: Seq<char>, tail: Seq<u8>)
    requires
        encode_utf8(text).len() < radix(8),
    ensures
        split_str(str_wire(text) + tail) == Some((text, tail)),
{
    let body = encode_utf8(text);
    let len = body.len();
    assert(str_wire(text) + tail =~= le_bytes(len, 8) + (body + tail));
    lemma_split_uint_of_wire(len, 8, body + tail);
    assert((body + tail).take(len as int) =~= body);
    assert((body + tail).skip(len as int) =~= tail);
    encode_utf8_valid_utf8(text);
    encode_utf8_decode_utf8(text);
}

/// An input from which a string can be read is the encoding of that string
/// followed by the bytes that the reading leaves.
pub proof fn lemma_split_str_is_inverse(input: Seq<u8>, text: Seq<char>, rest: Seq<u8>)
    requires
        split_str(input) == Some((text, rest)),
    ensures
        encode_utf8(text).len() < radix(8),
        input == str_wire(text) + rest,
{
    let (len, after_len) = split_uint(input, 8)->0;
    let body = after_len.take(len as int);
    lemma_split_uint_is_inverse(input, 8, len, after_len);
    decode_utf8_encode_utf8(body);
    assert(after_len =~= body + rest);
    assert(input =~= str_wire(text) + rest);
}

/// No string can be read from an encoding of a string that was cut short.
pub proof fn lemma_split_str_cut_short(text: Seq<char>, kept: nat)
    requires
        encode_utf8(text).len() < radix(8),
        kept < str_wire(text).len(),
    ensures
        split_str(str_wire(text).take(kept as int)) is None,
{
    let body = encode_utf8(text);
    let cut = str_wire(text).take(kept as int);
    lemma_le_bytes_len(body.len(), 8);
    if kept >= 8 {
        lemma_le_value_of_bytes(body.len(), 8);
        assert(cut.take(8) =~= le_bytes(body.len(), 8));
    }
}

} // verus!
