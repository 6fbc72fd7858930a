//! The class decoder's verdict on a byte string, as plain values: whether the class structure
//! decodes, its version, and where the structure ends.

use crate::bytes::be16;
use crate::error::Error;
use crate::text::{decimal, push_decimal};
use vstd::prelude::*;

verus! {


/// What the decoder read of a class that decodes.
#[derive(Clone, Copy, Debug, Eq, PartialEq)]
pub struct ClassShape {
    pub major: u16,
    pub minor: u16,
    /// Where the decoded class structure ends in the input.
    pub size: usize,
}

/// Why the decoder refused a class: its kind, the part of the class it was reading, and the
/// position, as the decoder spells them.
#[derive(Clone, Debug, Eq, PartialEq)]
pub struct DecodeFailure {
    pub kind: String,
    pub context: String,
    pub position: Option<usize>,
}

/// The decoder's verdict with every string as a sequence.
pub open spec fn verdict_of(r: core::result::Result<ClassShape, DecodeFailure>) -> core::result::Result<(u16, u16, usize), (Seq<char>, Seq<char>, Option<usize>)> {
    match r {
        Ok(s) => Ok((s.major, s.minor, s.size)),
        Err(f) => Err((f.kind@, f.context@, f.position)),
    }
}

/// What the class decoder (`noak::reader::Class::new`) concludes on a byte string: a function
/// of the bytes alone.
pub uninterp spec fn class_decode(bytes: Seq<u8>) -> core::result::Result<(u16, u16, usize), (Seq<char>, Seq<char>, Option<usize>)>;

/// Runs the class decoder (`noak::reader::Class::new`) over the bytes.
///
/// Trusted: the verdict is the decoder's, named [`class_decode`]. Of a class that decodes the
/// contract also claims what the decoder's source shows: the input starts with the magic, the
/// minor and major versions are the two big-endian fields after it, and the structure ends
/// inside the input.
#[verifier::external_body]
pub fn decode_class(bytes: &[u8]) -> (r: core::result::Result<ClassShape, DecodeFailure>)
    ensures
        verdict_of(r) == class_decode(bytes@),
        r matches Ok(s) ==> bytes@.len() >= 8 && bytes@[0] == 0xca && bytes@[1] == 0xfe && bytes@[2] == 0xba
            && bytes@[3] == 0xbe && s.minor == be16(bytes@, 4) && s.major == be16(bytes@, 6) && s.size <= bytes@.len(),
{
    match noak::reader::Class::new(bytes) {
        Ok(class) => Ok(ClassShape { major: class.version().major, minor: class.version().minor, size: class.buffer_size() }),
        Err(error) => Err(DecodeFailure {
            kind: format!("{}", error.kind()),
            context: format!("{}", error.context()),
            position: error.position(),
        }),
    }
}

/// The message a decoder refusal is reported with.
pub open spec fn decode_message(f: (Seq<char>, Seq<char>, Option<usize>)) -> Seq<char> {
    "noak decode failed: kind="@ + f.0 + ", context="@ + f.1 + ", position="@ + match f.2 {
        Some(p) => decimal(p as nat),
        None => "unknown"@,
    }
}

/// `classfile_decode`, with the decoder's kind, context and position.
pub fn map_decode_error(failure: &DecodeFailure) -> (e: Error)
    ensures
        crate::error::is_invalid_with(e, "classfile_decode"@, decode_message((failure.kind@, failure.context@, failure.position))),
{
    let mut m = String::from_str("noak decode failed: kind=");
    m.append(failure.kind.as_str());
    m.append(", context=");
    m.append(failure.context.as_str());
    m.append(", position=");
    match failure.position {
        Some(p) => push_decimal(&mut m, p as u64),
        None => m.append("unknown"),
    }
    Error::invalid_input_owned("classfile_decode", m)
}

} // verus!
