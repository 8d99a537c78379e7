//! Encoding and decoding of scalar values, identifiers and strings.

use super::bytes::{
    be_bytes, be_value, lemma_be_bytes_len, lemma_decode_encode, lemma_pow256_monotonic,
    lemma_pow256_values, pow256, signed32, signed64, unsigned32, unsigned64,
};
use super::error::Error;
use vstd::prelude::*;
use vstd::slice::{slice_subrange, slice_to_vec};
use vstd::utf8::{decode_utf8, encode_utf8, valid_utf8};

verus! {

/// The byte widths of the five kinds of identifier, as the VM reported them.
#[derive(Clone, Copy, Debug, PartialEq, Eq, Structural)]
pub struct IDSizes {
    pub field: i32,
    pub method: i32,
    pub object: i32,
    pub reference_type: i32,
    pub frame: i32,
}

impl Default for IDSizes {
    /// All widths zero: nothing has been negotiated yet.
    fn default() -> (sizes: IDSizes)
        ensures
            sizes == (IDSizes { field: 0, method: 0, object: 0, reference_type: 0, frame: 0 }),
    {
        IDSizes { field: 0, method: 0, object: 0, reference_type: 0, frame: 0 }
    }
}

/// The number of bytes that a requested width stands for; nothing for a width below one.
pub open spec fn width_of(size: i32) -> nat {
    if size > 0 {
        size as nat
    } else {
        0
    }
}

/// Relates the shift-and-mask that picks byte `k` of a word to division by powers of 256.
proof fn lemma_byte_of_word(data: u64, k: nat)
    requires
        k < 8,
    ensures
        (data >> ((8 * k) as u64)) & 0xff == (data as nat / pow256(k)) % 256,
        (data as nat / pow256(k)) / 256 == data as nat / pow256(k + 1),
        k == 7 ==> data as nat / pow256(k + 1) == 0,
{
    lemma_pow256_values();
    if k == 0 {
        assert((data >> 0u64) & 0xff == (data / 0x1) % 256) by (bit_vector);
    } else if k == 1 {
        assert((data >> 8u64) & 0xff == (data / 0x100) % 256) by (bit_vector);
    } else if k == 2 {
        assert((data >> 16u64) & 0xff == (data / 0x1_0000) % 256) by (bit_vector);
    } else if k == 3 {
        assert((data >> 24u64) & 0xff == (data / 0x100_0000) % 256) by (bit_vector);
    } else if k == 4 {
        assert((data >> 32u64) & 0xff == (data / 0x1_0000_0000) % 256) by (bit_vector);
    } else if k == 5 {
        assert((data >> 40u64) & 0xff == (data / 0x100_0000_0000) % 256) by (bit_vector);
    } else if k == 6 {
        assert((data >> 48u64) & 0xff == (data / 0x1_0000_0000_0000) % 256) by (bit_vector);
    } else {
        assert((data >> 56u64) & 0xff == (data / 0x100_0000_0000_0000) % 256) by (bit_vector);
        assert(data as nat / 0x1_0000_0000_0000_0000nat == 0);
    }
}

/// An encoding of at least one byte is the encoding of the higher digits, then the lowest.
proof fn lemma_be_bytes_step(value: nat, width: nat)
    requires
        width > 0,
    ensures
        be_bytes(value, width) == be_bytes(value / 256, (width - 1) as nat).push(
            (value % 256) as u8,
        ),
{
}

/// A string on the wire: the length of its UTF-8 form in four bytes, then that form.
pub open spec fn string_bytes(s: Seq<char>) -> Seq<u8> {
    be_bytes(encode_utf8(s).len(), 4) + encode_utf8(s)
}

/// The identifiers of `ids` on the wire, one after the other, each `width` bytes wide.
pub open spec fn ids_bytes(ids: Seq<u64>, width: nat) -> Seq<u8>
    decreases ids.len(),
{
    if ids.len() == 0 {
        Seq::empty()
    } else {
        ids_bytes(ids.drop_last(), width) + be_bytes(ids.last() as nat, width)
    }
}

/// Appends the `size` lowest bytes of `data` to `out`, most significant first.
/// A `size` below one appends nothing.
pub fn write_be(out: &mut Vec<u8>, data: u64, size: i32)
    requires
        size <= 8,
    ensures
        final(out)@ == old(out)@ + be_bytes(data as nat, width_of(size)),
{
    let mut i: i32 = 0;
    proof {
        lemma_pow256_values();
    }
    while i < size
        invariant
            0 <= i,
            i <= width_of(size) <= 8,
            out@ == old(out)@ + be_bytes(
                data as nat / pow256((width_of(size) - i) as nat),
                i as nat,
            ),
        decreases size - i,
    {
        let k: i32 = size - 1 - i;
        let shift: u64 = 8 * (k as u64);
        proof {
            lemma_byte_of_word(data, k as nat);
        }
        let b: u8 = ((data >> shift) & 0xff) as u8;
        out.push(b);
        i = i + 1;
        proof {
            lemma_be_bytes_step(data as nat / pow256(k as nat), i as nat);
        }
    }
    proof {
        assert(data as nat / 1 == data as nat);
    }
}

/// Appends `data` to `out` as it stands.
pub fn write_bytes(out: &mut Vec<u8>, data: &[u8])
    ensures
        final(out)@ == old(out)@ + data@,
{
    let mut i: usize = 0;
    while i < data.len()
        invariant
            i <= data@.len(),
            out@ == old(out)@ + data@.take(i as int),
        decreases data@.len() - i,
    {
        out.push(data[i]);
        i = i + 1;
    }
}

/// Builds a payload: the bytes written so far, and the identifier widths in force.
pub struct Serializer(pub Vec<u8>, pub IDSizes);

impl Serializer {
    /// Appends the `size` lowest bytes of `data`, most significant first.
    /// A `size` below one appends nothing.
    pub fn write_untagged(&mut self, data: u64, size: i32)
        requires
            size <= 8,
        ensures
            final(self).0@ == old(self).0@ + be_bytes(data as nat, width_of(size)),
            final(self).1 == old(self).1,
    {
        write_be(&mut self.0, data, size);
    }

    /// Appends `data` as it stands.
    pub fn write_array(&mut self, data: &[u8])
        ensures
            final(self).0@ == old(self).0@ + data@,
            final(self).1 == old(self).1,
    {
        write_bytes(&mut self.0, data);
    }

    /// Appends each identifier of `data` in `size` bytes, in order.
    pub fn write_ids(&mut self, data: &[u64], size: i32)
        requires
            size <= 8,
        ensures
            final(self).0@ == old(self).0@ + ids_bytes(data@, width_of(size)),
            final(self).1 == old(self).1,
    {
        let mut i: usize = 0;
        while i < data.len()
            invariant
                size <= 8,
                i <= data@.len(),
                self.0@ == old(self).0@ + ids_bytes(data@.take(i as int), width_of(size)),
                self.1 == old(self).1,
            decreases data@.len() - i,
        {
            self.write_untagged(data[i], size);
            i = i + 1;
            proof {
                assert(data@.take(i as int).drop_last() =~= data@.take(i - 1));
            }
        }
        proof {
            assert(data@.take(i as int) =~= data@);
        }
    }

    /// Appends one byte.
    pub fn serialize_byte(&mut self, data: u8)
        ensures
            final(self).0@ == old(self).0@.push(data),
            final(self).1 == old(self).1,
    {
        self.write_untagged(data as u64, 1);
        proof {
            reveal_with_fuel(be_bytes, 2);
        }
    }

    /// Appends a boolean as one byte: `1` for true, `0` for false.
    pub fn serialize_bool(&mut self, data: bool)
        ensures
            final(self).0@ == old(self).0@.push(if data { 1u8 } else { 0u8 }),
            final(self).1 == old(self).1,
    {
        self.serialize_byte(if data { 1u8 } else { 0u8 });
    }

    /// Appends a 16-bit character code in two bytes.
    pub fn serialize_char(&mut self, data: u16)
        ensures
            final(self).0@ == old(self).0@ + be_bytes(data as nat, 2),
            final(self).1 == old(self).1,
    {
        self.write_untagged(data as u64, 2);
    }

    /// Appends a signed 32-bit integer in four bytes, in two's complement.
    pub fn serialize_int(&mut self, data: i32)
        ensures
            final(self).0@ == old(self).0@ + be_bytes(unsigned32(data as int), 4),
            final(self).1 == old(self).1,
    {
        let pattern: u32 = #[verifier::truncate] (data as u32);
        proof {
            assert(data < 0 ==> data as u32 == data + 0x1_0000_0000) by (bit_vector);
        }
        self.write_untagged(pattern as u64, 4);
    }

    /// Appends a signed 64-bit integer in eight bytes, in two's complement.
    pub fn serialize_long(&mut self, data: i64)
        ensures
            final(self).0@ == old(self).0@ + be_bytes(unsigned64(data as int), 8),
            final(self).1 == old(self).1,
    {
        let pattern: u64 = #[verifier::truncate] (data as u64);
        proof {
            assert(data < 0 ==> data as u64 == data + 0x1_0000_0000_0000_0000) by (bit_vector);
        }
        self.write_untagged(pattern, 8);
    }

    /// Appends an object identifier in the negotiated width.
    pub fn serialize_object(&mut self, id: u64)
        requires
            old(self).1.object <= 8,
        ensures
            final(self).0@ == old(self).0@ + be_bytes(id as nat, width_of(old(self).1.object)),
            final(self).1 == old(self).1,
    {
        let width = self.1.object;
        self.write_untagged(id, width);
    }

    /// Appends a string: the byte length of its UTF-8 form in four bytes, then the bytes.
    /// Of a length that four bytes cannot hold, the prefix keeps the lowest four bytes.
    pub fn serialize_string(&mut self, s: &String)
        ensures
            final(self).0@ == old(self).0@ + string_bytes(s@),
            final(self).1 == old(self).1,
    {
        let sbytes = s.as_str().as_bytes();
        let slen = sbytes.len();
        self.write_untagged(slen as u64, 4);
        self.write_array(sbytes);
    }
}

/// What reading an unsigned integer of `size` bytes from the front of `input` gives:
/// the number and the input that is left, or the reason why there is none.
pub open spec fn take_untagged(input: Seq<u8>, size: i32) -> Result<(nat, Seq<u8>), Error> {
    if size <= 0 || size > 8 {
        Err(Error::IllegalArgument)
    } else if input.len() < size {
        Err(Error::AbsentInformation)
    } else {
        Ok((be_value(input.take(size as int)), input.skip(size as int)))
    }
}

/// What reading `size` raw bytes from the front of `input` gives.
pub open spec fn take_array(input: Seq<u8>, size: nat) -> Result<(Seq<u8>, Seq<u8>), Error> {
    if input.len() < size {
        Err(Error::AbsentInformation)
    } else {
        Ok((input.take(size as int), input.skip(size as int)))
    }
}

/// What reading one byte from the front of `input` gives.
pub open spec fn take_byte(input: Seq<u8>) -> Result<(u8, Seq<u8>), Error> {
    match take_untagged(input, 1) {
        Ok((v, rest)) => Ok((v as u8, rest)),
        Err(e) => Err(e),
    }
}

/// What reading a boolean from the front of `input` gives: any byte but zero is true.
pub open spec fn take_boolean(input: Seq<u8>) -> Result<(bool, Seq<u8>), Error> {
    match take_byte(input) {
        Ok((b, rest)) => Ok((b != 0, rest)),
        Err(e) => Err(e),
    }
}

/// What reading a 16-bit character code from the front of `input` gives.
pub open spec fn take_char(input: Seq<u8>) -> Result<(u16, Seq<u8>), Error> {
    match take_untagged(input, 2) {
        Ok((v, rest)) => Ok((v as u16, rest)),
        Err(e) => Err(e),
    }
}

/// What reading a signed 32-bit integer from the front of `input` gives.
pub open spec fn take_int(input: Seq<u8>) -> Result<(i32, Seq<u8>), Error> {
    match take_untagged(input, 4) {
        Ok((v, rest)) => Ok((signed32(v) as i32, rest)),
        Err(e) => Err(e),
    }
}

/// What reading a signed 64-bit integer from the front of `input` gives.
pub open spec fn take_long(input: Seq<u8>) -> Result<(i64, Seq<u8>), Error> {
    match take_untagged(input, 8) {
        Ok((v, rest)) => Ok((signed64(v) as i64, rest)),
        Err(e) => Err(e),
    }
}

/// What reading a string from the front of `input` gives: a four-byte length, which
/// must not be negative as a signed number, then that many bytes of UTF-8.
pub open spec fn take_string(input: Seq<u8>) -> Result<(Seq<char>, Seq<u8>), Error> {
    match take_int(input) {
        Err(e) => Err(e),
        Ok((length, rest)) => {
            if length < 0 {
                Err(Error::InvalidLength)
            } else if rest.len() < length {
                Err(Error::AbsentInformation)
            } else if !valid_utf8(rest.take(length as int)) {
                Err(Error::InvalidString)
            } else {
                Ok((decode_utf8(rest.take(length as int)), rest.skip(length as int)))
            }
        },
    }
}

/// Turns bytes into a string with `String::from_utf8`: a string comes back exactly
/// when the bytes are well-formed UTF-8, and its UTF-8 form is then those bytes.
#[verifier::external_body]
fn string_from_utf8(data: Vec<u8>) -> (text: Option<String>)
    ensures
        text is Some <==> valid_utf8(data@),
        text matches Some(s) ==> encode_utf8(s@) == data@,
{
    match String::from_utf8(data) {
        Ok(s) => Some(s),
        Err(_) => None,
    }
}

/// Reads an unsigned integer of `size` bytes, most significant byte first, from the
/// front of `input`, and moves `input` past it. A read that fails moves nothing.
pub fn read_be<'a>(input: &mut &'a [u8], size: i32) -> (r: Result<u64, Error>)
    ensures
        match take_untagged(old(input)@, size) {
            Ok((v, rest)) => r is Ok && r->Ok_0 == v && final(input)@ == rest,
            Err(e) => r == Err::<u64, Error>(e) && final(input)@ == old(input)@,
        },
        r matches Ok(v) ==> v < pow256(size as nat),
{
    if size <= 0 || size > 8 {
        return Err(Error::IllegalArgument);
    }
    let width: usize = size as usize;
    let bytes: &'a [u8] = *input;
    if bytes.len() < width {
        return Err(Error::AbsentInformation);
    }
    let mut value: u64 = 0;
    let mut i: usize = 0;
    while i < width
        invariant
            i <= width <= 8,
            width <= bytes@.len(),
            value == be_value(bytes@.take(i as int)),
            value < pow256(i as nat),
        decreases width - i,
    {
        proof {
            lemma_pow256_values();
            assert(bytes@.take(i + 1).drop_last() =~= bytes@.take(i as int));
        }
        value = value * 256 + bytes[i] as u64;
        i = i + 1;
    }
    *input = slice_subrange(bytes, width, bytes.len());
    Ok(value)
}

/// Reads values from the front of a byte string; what has been read is gone from it.
/// A read that fails leaves the input as it was.
pub struct Deserializer<'a>(pub &'a [u8], pub IDSizes);

impl<'a> Deserializer<'a> {
    /// Reads an unsigned integer of `size` bytes, most significant byte first.
    pub fn read_untagged(&mut self, size: i32) -> (r: Result<u64, Error>)
        ensures
            match take_untagged(old(self).0@, size) {
                Ok((v, rest)) => r is Ok && r->Ok_0 == v && final(self).0@ == rest,
                Err(e) => r == Err::<u64, Error>(e) && final(self).0@ == old(self).0@,
            },
            r matches Ok(v) ==> v < pow256(size as nat),
            final(self).1 == old(self).1,
    {
        read_be(&mut self.0, size)
    }

    /// Reads `size` raw bytes.
    pub fn read_array(&mut self, size: usize) -> (r: Result<Vec<u8>, Error>)
        ensures
            match take_array(old(self).0@, size as nat) {
                Ok((bytes, rest)) => r is Ok && r->Ok_0@ == bytes && final(self).0@ == rest,
                Err(e) => r == Err::<Vec<u8>, Error>(e) && final(self).0@ == old(self).0@,
            },
            final(self).1 == old(self).1,
    {
        let input = self.0;
        if input.len() < size {
            return Err(Error::AbsentInformation);
        }
        let data = slice_to_vec(slice_subrange(input, 0, size));
        self.0 = slice_subrange(input, size, input.len());
        Ok(data)
    }

    /// Reads one byte.
    pub fn deserialize_byte(&mut self) -> (r: Result<u8, Error>)
        ensures
            match take_byte(old(self).0@) {
                Ok((v, rest)) => r == Ok::<u8, Error>(v) && final(self).0@ == rest,
                Err(e) => r == Err::<u8, Error>(e) && final(self).0@ == old(self).0@,
            },
            final(self).1 == old(self).1,
    {
        match self.read_untagged(1) {
            Ok(v) => Ok(v as u8),
            Err(e) => Err(e),
        }
    }

    /// Reads a boolean: one byte, true unless it is zero.
    pub fn deserialize_boolean(&mut self) -> (r: Result<bool, Error>)
        ensures
            match take_boolean(old(self).0@) {
                Ok((v, rest)) => r == Ok::<bool, Error>(v) && final(self).0@ == rest,
                Err(e) => r == Err::<bool, Error>(e) && final(self).0@ == old(self).0@,
            },
            final(self).1 == old(self).1,
    {
        match self.deserialize_byte() {
            Ok(v) => Ok(v != 0),
            Err(e) => Err(e),
        }
    }

    /// Reads a 16-bit character code.
    pub fn deserialize_char(&mut self) -> (r: Result<u16, Error>)
        ensures
            match take_char(old(self).0@) {
                Ok((v, rest)) => r == Ok::<u16, Error>(v) && final(self).0@ == rest,
                Err(e) => r == Err::<u16, Error>(e) && final(self).0@ == old(self).0@,
            },
            final(self).1 == old(self).1,
    {
        match self.read_untagged(2) {
            Ok(v) => Ok(v as u16),
            Err(e) => Err(e),
        }
    }

    /// Reads a signed 32-bit integer in two's complement.
    pub fn deserialize_int(&mut self) -> (r: Result<i32, Error>)
        ensures
            match take_int(old(self).0@) {
                Ok((v, rest)) => r == Ok::<i32, Error>(v) && final(self).0@ == rest,
                Err(e) => r == Err::<i32, Error>(e) && final(self).0@ == old(self).0@,
            },
            final(self).1 == old(self).1,
    {
        proof {
            lemma_pow256_values();
        }
        match self.read_untagged(4) {
            Ok(v) => {
                let pattern: u32 = v as u32;
                proof {
                    assert(pattern >= 0x8000_0000 ==> pattern as i32 == pattern - 0x1_0000_0000)
                        by (bit_vector);
                }
                Ok(#[verifier::truncate] (pattern as i32))
            },
            Err(e) => Err(e),
        }
    }

    /// Reads a signed 64-bit integer in two's complement.
    pub fn deserialize_long(&mut self) -> (r: Result<i64, Error>)
        ensures
            match take_long(old(self).0@) {
                Ok((v, rest)) => r == Ok::<i64, Error>(v) && final(self).0@ == rest,
                Err(e) => r == Err::<i64, Error>(e) && final(self).0@ == old(self).0@,
            },
            final(self).1 == old(self).1,
    {
        match self.read_untagged(8) {
            Ok(v) => {
                proof {
                    assert(v >= 0x8000_0000_0000_0000 ==> v as i64 == v
                        - 0x1_0000_0000_0000_0000) by (bit_vector);
                }
                Ok(#[verifier::truncate] (v as i64))
            },
            Err(e) => Err(e),
        }
    }

    /// Reads an object identifier in the negotiated width.
    pub fn deserialize_object(&mut self) -> (r: Result<u64, Error>)
        ensures
            match take_untagged(old(self).0@, old(self).1.object) {
                Ok((v, rest)) => r is Ok && r->Ok_0 == v && final(self).0@ == rest,
                Err(e) => r == Err::<u64, Error>(e) && final(self).0@ == old(self).0@,
            },
            final(self).1 == old(self).1,
    {
        let width = self.1.object;
        self.read_untagged(width)
    }

    /// Reads a string: a four-byte length, then that many bytes of UTF-8.
    pub fn deserialize_string(&mut self) -> (r: Result<String, Error>)
        ensures
            match take_string(old(self).0@) {
                Ok((text, rest)) => r is Ok && r->Ok_0@ == text && final(self).0@ == rest,
                Err(e) => r == Err::<String, Error>(e) && final(self).0@ == old(self).0@,
            },
            final(self).1 == old(self).1,
    {
        let start = self.0;
        let length = match self.deserialize_int() {
            Ok(v) => v,
            Err(e) => {
                return Err(e);
            },
        };
        if length < 0 {
            self.0 = start;
            return Err(Error::InvalidLength);
        }
        let data = match self.read_array(length as usize) {
            Ok(d) => d,
            Err(e) => {
                self.0 = start;
                return Err(e);
            },
        };
        match string_from_utf8(data) {
            Some(s) => {
                proof {
                    vstd::utf8::encode_utf8_decode_utf8(s@);
                }
                Ok(s)
            },
            None => {
                self.0 = start;
                Err(Error::InvalidString)
            },
        }
    }
}

/// An unsigned integer that was written in `size` bytes is read back from the front of
/// what follows it, reduced to what `size` bytes can hold, and the rest is left.
pub proof fn lemma_take_untagged_of_written(value: u64, size: i32, rest: Seq<u8>)
    requires
        1 <= size <= 8,
    ensures
        take_untagged(be_bytes(value as nat, size as nat) + rest, size) == Ok::<
            (nat, Seq<u8>),
            Error,
        >((value as nat % pow256(size as nat), rest)),
{
    let written = be_bytes(value as nat, size as nat);
    lemma_be_bytes_len(value as nat, size as nat);
    lemma_decode_encode(value as nat, size as nat);
    assert((written + rest).take(size as int) =~= written);
    assert((written + rest).skip(size as int) =~= rest);
}

/// Reading one byte takes the first byte of a non-empty input and leaves the others.
pub proof fn lemma_take_byte_first(input: Seq<u8>)
    requires
        input.len() > 0,
    ensures
        take_byte(input) == Ok::<(u8, Seq<u8>), Error>((input[0], input.skip(1))),
{
    reveal_with_fuel(be_value, 2);
}

/// A byte that was written is read back.
pub proof fn lemma_take_byte_of_written(value: u8, rest: Seq<u8>)
    ensures
        take_byte(seq![value] + rest) == Ok::<(u8, Seq<u8>), Error>((value, rest)),
{
    reveal_with_fuel(be_bytes, 2);
    lemma_pow256_values();
    lemma_take_untagged_of_written(value as u64, 1, rest);
}

/// A boolean that was written is read back.
pub proof fn lemma_take_boolean_of_written(value: bool, rest: Seq<u8>)
    ensures
        take_boolean(seq![if value { 1u8 } else { 0u8 }] + rest) == Ok::<(bool, Seq<u8>), Error>(
            (value, rest),
        ),
{
    lemma_take_byte_of_written(if value { 1u8 } else { 0u8 }, rest);
}

/// A character code that was written is read back.
pub proof fn lemma_take_char_of_written(value: u16, rest: Seq<u8>)
    ensures
        take_char(be_bytes(value as nat, 2) + rest) == Ok::<(u16, Seq<u8>), Error>((value, rest)),
{
    lemma_pow256_values();
    vstd::arithmetic::div_mod::lemma_small_mod(value as nat, pow256(2));
    lemma_take_untagged_of_written(value as u64, 2, rest);
}

/// A signed 32-bit integer that was written is read back, whatever its sign.
pub proof fn lemma_take_int_of_written(value: i32, rest: Seq<u8>)
    ensures
        take_int(be_bytes(unsigned32(value as int), 4) + rest) == Ok::<(i32, Seq<u8>), Error>(
            (value, rest),
        ),
{
    lemma_pow256_values();
    vstd::arithmetic::div_mod::lemma_small_mod(unsigned32(value as int), pow256(4));
    lemma_take_untagged_of_written(unsigned32(value as int) as u64, 4, rest);
}

/// A signed 64-bit integer that was written is read back, whatever its sign.
pub proof fn lemma_take_long_of_written(value: i64, rest: Seq<u8>)
    ensures
        take_long(be_bytes(unsigned64(value as int), 8) + rest) == Ok::<(i64, Seq<u8>), Error>(
            (value, rest),
        ),
{
    lemma_pow256_values();
    vstd::arithmetic::div_mod::lemma_small_mod(unsigned64(value as int), pow256(8));
    lemma_take_untagged_of_written(unsigned64(value as int) as u64, 8, rest);
}

/// A string that was written is read back, provided that its UTF-8 form is short enough
/// for its length to be a non-negative 32-bit number.
pub proof fn lemma_take_string_of_written(text: Seq<char>, rest: Seq<u8>)
    requires
        encode_utf8(text).len() <= i32::MAX,
    ensures
        take_string(string_bytes(text) + rest) == Ok::<(Seq<char>, Seq<u8>), Error>((text, rest)),
{
    let body = encode_utf8(text);
    let length: i32 = body.len() as i32;
    assert(string_bytes(text) + rest =~= be_bytes(unsigned32(length as int), 4) + (body + rest));
    lemma_take_int_of_written(length, body + rest);
    assert((body + rest).take(length as int) =~= body);
    assert((body + rest).skip(length as int) =~= rest);
    vstd::utf8::encode_utf8_valid_utf8(text);
    vstd::utf8::encode_utf8_decode_utf8(text);
}

} // verus!
