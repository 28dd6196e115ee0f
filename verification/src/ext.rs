//! Bindings to library functions that vstd gives no specification.
//!
//! Each item here is trusted: its contract states what the callee's own
//! documentation promises, and Verus believes it without reading the body.

use vstd::prelude::*;

verus! {

/// Relies on `String::push`: appends the given character to the end of
/// the string.
#[verifier::external_body]
pub fn string_push(s: &mut String, c: char)
    ensures
        final(s)@ == old(s)@.push(c),
{
    s.push(c)
}

/// Relies on `rand::random` for drawing card letters. Nothing can be
/// promised of a random value, so this carries no `ensures`.
pub assume_specification<T>[ rand::random::<T> ]() -> (r: T)
    where
        rand::distr::StandardUniform: rand::distr::Distribution<T>,
;

/// prost's decode error, opaque to the library; callers map it to their
/// own error straight away.
#[verifier::external_type_specification]
#[verifier::external_body]
pub struct ExDecodeError(prost::DecodeError);

/// Relies on `prost::encoding::decode_varint`: LEB128 over at most ten
/// bytes, the tenth restricted so the value fits in 64 bits; on success
/// the buffer advances past the varint.
#[verifier::external_body]
pub fn decode_varint_at(data: &Vec<u8>, pos: usize) -> (r: Result<
    (u64, usize),
    prost::DecodeError,
>)
    requires
        pos <= data@.len(),
    ensures
        match r {
            Ok((v, remaining)) => crate::frame::varint_valid(data@, pos as int) && v as nat
                == crate::frame::varint_value(data@, pos as int) && remaining == data@.len()
                - crate::frame::varint_end(data@, pos as int),
            Err(_) => !crate::frame::varint_valid(data@, pos as int),
        },
{
    let mut buf: &[u8] = &data[pos..];
    match prost::encoding::decode_varint(&mut buf) {
        Ok(v) => Ok((v, buf.len())),
        Err(e) => Err(e),
    }
}

/// Relies on `String::from_utf8`: succeeds exactly on valid UTF-8 and
/// yields the characters those bytes encode.
#[verifier::external_body]
pub fn string_from_utf8(bytes: Vec<u8>) -> (r: Result<String, std::string::FromUtf8Error>)
    ensures
        match r {
            Ok(s) => vstd::utf8::valid_utf8(bytes@) && s@ == vstd::utf8::decode_utf8(bytes@),
            Err(_) => !vstd::utf8::valid_utf8(bytes@),
        },
{
    String::from_utf8(bytes)
}

/// std's UTF-8 conversion error, opaque to the library.
#[verifier::external_type_specification]
#[verifier::external_body]
pub struct ExFromUtf8Error(std::string::FromUtf8Error);

} // verus!
