//! Fixed-width tryte strings of 81 and 27 characters, stored as their raw
//! bytes and carried in columns with a fixed length prefix.
use vstd::prelude::*;
use vstd::string::StringSliceAdditionalSpecFns;
use vstd::utf8::{decode_utf8, valid_utf8};
use crate::bytes::{copy_array, push_be, push_bytes, utf8_text, DecodeError};
use crate::column::{ColumnDecoder, ColumnEncoder};

verus! {

/// A textual fixed-width string had another length than its type requires.
#[derive(Debug, Clone, Copy, PartialEq, Eq, Structural)]
pub struct InvalidLength {
    pub required: usize,
    pub actual: usize,
}

/// A string of exactly 81 tryte characters, held as its bytes.
#[derive(Clone, Copy)]
pub struct Trytes81(pub [u8; 81]);

impl Trytes81 {
    /// Takes a text of exactly 81 bytes; any other length is refused with
    /// the length found.
    pub fn from_text(value: &str) -> (r: Result<Trytes81, InvalidLength>)
        ensures
            r is Ok <==> value.spec_bytes().len() == 81,
            r matches Ok(t) ==> t.0@ == value.spec_bytes(),
            r matches Err(e) ==> e.required == 81 && e.actual == value.spec_bytes().len(),
    {
        let bytes = value.as_bytes();
        if bytes.len() != 81 {
            return Err(InvalidLength { required: 81, actual: bytes.len() });
        }
        let raw: [u8; 81] = copy_array(bytes);
        proof {
            assert(bytes@.take(81) =~= bytes@);
        }
        Ok(Trytes81(raw))
    }

    /// The stored bytes as text; fails when they are not well-formed UTF-8.
    pub fn to_text(&self) -> (r: Result<String, DecodeError>)
        ensures
            r is Ok <==> valid_utf8(self.0@),
            r matches Ok(s) ==> s@ == decode_utf8(self.0@),
    {
        utf8_text(self.0.as_slice())
    }
}

impl ColumnDecoder for Trytes81 {
    /// The first 81 bytes, copied as they are; the declared length is not
    /// consulted.
    open spec fn can_decode(slice: Seq<u8>, length: int) -> bool {
        slice.len() >= 81
    }

    open spec fn decodes_to(slice: Seq<u8>, length: int, v: Trytes81) -> bool {
        v.0@ == slice.take(81)
    }

    fn decode(slice: &[u8], length: usize) -> (r: Result<Trytes81, DecodeError>) {
        if slice.len() < 81 {
            return Err(DecodeError::Truncated { offset: 0, needed: 81 });
        }
        Ok(Trytes81(copy_array(slice)))
    }
}

impl ColumnEncoder for Trytes81 {
    open spec fn encoding(&self) -> Seq<u8> {
        self.0@
    }

    fn encode(&self, buffer: &mut Vec<u8>) {
        push_be(buffer, 81, 4);
        push_bytes(buffer, self.0.as_slice());
    }

    proof fn lemma_decode_encode(&self) {
        assert(self.0@.take(81) =~= self.0@);
    }
}

/// A string of exactly 27 tryte characters, held as its bytes.
#[derive(Clone, Copy)]
pub struct Trytes27(pub [u8; 27]);

impl Trytes27 {
    /// Takes a text of exactly 27 bytes; any other length is refused with
    /// the length found.
    pub fn from_text(value: &str) -> (r: Result<Trytes27, InvalidLength>)
        ensures
            r is Ok <==> value.spec_bytes().len() == 27,
            r matches Ok(t) ==> t.0@ == value.spec_bytes(),
            r matches Err(e) ==> e.required == 27 && e.actual == value.spec_bytes().len(),
    {
        let bytes = value.as_bytes();
        if bytes.len() != 27 {
            return Err(InvalidLength { required: 27, actual: bytes.len() });
        }
        let raw: [u8; 27] = copy_array(bytes);
        proof {
            assert(bytes@.take(27) =~= bytes@);
        }
        Ok(Trytes27(raw))
    }

    /// The stored bytes as text; fails when they are not well-formed UTF-8.
    pub fn to_text(&self) -> (r: Result<String, DecodeError>)
        ensures
            r is Ok <==> valid_utf8(self.0@),
            r matches Ok(s) ==> s@ == decode_utf8(self.0@),
    {
        utf8_text(self.0.as_slice())
    }
}

impl ColumnDecoder for Trytes27 {
    /// The first 27 bytes, copied as they are; the declared length is not
    /// consulted.
    open spec fn can_decode(slice: Seq<u8>, length: int) -> bool {
        slice.len() >= 27
    }

    open spec fn decodes_to(slice: Seq<u8>, length: int, v: Trytes27) -> bool {
        v.0@ == slice.take(27)
    }

    fn decode(slice: &[u8], length: usize) -> (r: Result<Trytes27, DecodeError>) {
        if slice.len() < 27 {
            return Err(DecodeError::Truncated { offset: 0, needed: 27 });
        }
        Ok(Trytes27(copy_array(slice)))
    }
}

impl ColumnEncoder for Trytes27 {
    open spec fn encoding(&self) -> Seq<u8> {
        self.0@
    }

    fn encode(&self, buffer: &mut Vec<u8>) {
        push_be(buffer, 27, 4);
        push_bytes(buffer, self.0.as_slice());
    }

    proof fn lemma_decode_encode(&self) {
        assert(self.0@.take(27) =~= self.0@);
    }
}

} // verus!
