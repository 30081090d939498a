//! Decoding of two animated triangle-mesh formats (the older MDL and its successor MD2)
//! and their flattening into one renderer-friendly mesh whose positions, texture
//! coordinates and triangle corners share a single index space.
use vstd::prelude::*;
use vstd::utf8::{decode_utf8, valid_utf8};

pub mod bytes;
pub mod flat_model;
pub mod lemmas;
pub mod md2;
pub mod mdl;

verus! {

/// What went wrong while decoding or flattening a model.
#[derive(Debug, Clone, Copy, PartialEq, Eq, Structural)]
pub enum ErrorKind {
    /// The file does not start with the format's signature.
    IdentityMismatch { expected: i32, actual: i32 },
    /// The file is of another revision of the format.
    VersionMismatch { expected: i32, actual: i32 },
    /// Grouped skins or grouped, timed frames: not supported.
    UnsupportedVariant,
    /// The data ends before a record that it declares.
    Truncated,
    /// An embedded name is not valid UTF-8.
    EncodingFailure,
    /// A model without frames or without triangles cannot be flattened.
    EmptyModel,
}

/// An error with the kind of failure and a short note on where it happened.
#[derive(Debug)]
pub struct Error {
    pub kind: ErrorKind,
    pub message: String,
}

pub type Result<T> = core::result::Result<T, Error>;

impl Error {
    /// The signature read (`actual`) is not the one of the format (`expected`).
    pub fn ident(actual: i32, expected: i32) -> (r: Self)
        ensures
            r.kind == (ErrorKind::IdentityMismatch { expected, actual }),
            r.message@ == Seq::<char>::empty(),
    {
        Error { kind: ErrorKind::IdentityMismatch { expected, actual }, message: String::new() }
    }

    /// The revision read (`actual`) is not the supported one (`expected`).
    pub fn version(actual: i32, expected: i32) -> (r: Self)
        ensures
            r.kind == (ErrorKind::VersionMismatch { expected, actual }),
            r.message@ == Seq::<char>::empty(),
    {
        Error { kind: ErrorKind::VersionMismatch { expected, actual }, message: String::new() }
    }

    /// The data ended before the record described by `msg`.
    pub fn io(msg: &str) -> (r: Self)
        ensures
            r.kind == ErrorKind::Truncated,
            r.message@ == msg@,
    {
        Error { kind: ErrorKind::Truncated, message: msg.to_owned() }
    }

    /// The name described by `msg` is not valid UTF-8.
    pub fn utf8(_src: std::str::Utf8Error, msg: &str) -> (r: Self)
        ensures
            r.kind == ErrorKind::EncodingFailure,
            r.message@ == msg@,
    {
        Error { kind: ErrorKind::EncodingFailure, message: msg.to_owned() }
    }

    /// A variant of the format that is not supported, described by `msg`.
    pub fn unsupported(msg: &str) -> (r: Self)
        ensures
            r.kind == ErrorKind::UnsupportedVariant,
            r.message@ == msg@,
    {
        Error { kind: ErrorKind::UnsupportedVariant, message: msg.to_owned() }
    }

    /// The model has no frame or no triangle.
    pub fn empty_model(msg: &str) -> (r: Self)
        ensures
            r.kind == ErrorKind::EmptyModel,
            r.message@ == msg@,
    {
        Error { kind: ErrorKind::EmptyModel, message: msg.to_owned() }
    }
}

#[verifier::external_type_specification]
#[verifier::external_body]
pub struct ExUtf8Error(std::str::Utf8Error);

/// The bytes of a zero-terminated field: those before the first zero byte, or all
/// of them when there is none.
pub open spec fn c_str(b: Seq<u8>) -> Seq<u8>
    decreases b.len(),
{
    if b.len() == 0 || b[0] == 0 {
        Seq::empty()
    } else {
        seq![b[0]] + c_str(b.drop_first())
    }
}

proof fn lemma_c_str(b: Seq<u8>, i: int)
    requires
        0 <= i <= b.len(),
        forall|j: int| 0 <= j < i ==> b[j] != 0,
        i == b.len() || b[i] == 0,
    ensures
        c_str(b) == b.take(i),
    decreases i,
{
    if i > 0 {
        lemma_c_str(b.drop_first(), i - 1);
        assert(b.take(i) =~= seq![b[0]] + b.drop_first().take(i - 1));
    } else {
        assert(b.take(i) =~= Seq::<u8>::empty());
    }
}

/// Relies on std::str::from_utf8: it accepts exactly the well-formed UTF-8 byte
/// sequences, and the text it returns is what they encode.
#[verifier::external_body]
fn decode_text(b: &[u8]) -> (r: core::result::Result<String, std::str::Utf8Error>)
    ensures
        r is Ok <==> valid_utf8(b@),
        r matches Ok(s) ==> s@ == decode_utf8(b@),
{
    match std::str::from_utf8(b) {
        Ok(s) => Ok(s.to_owned()),
        Err(e) => Err(e),
    }
}

/// Decodes a zero-terminated text field as UTF-8: the bytes from the first zero on
/// are ignored.
pub fn to_utf8(bytes: &[u8]) -> (r: core::result::Result<String, std::str::Utf8Error>)
    ensures
        r is Ok <==> valid_utf8(c_str(bytes@)),
        r matches Ok(s) ==> s@ == decode_utf8(c_str(bytes@)),
{
    let mut end: usize = 0;
    while end < bytes.len() && bytes[end] != 0
        invariant
            end <= bytes@.len(),
            forall|j: int| 0 <= j < end ==> bytes@[j] != 0,
        decreases bytes@.len() - end,
    {
        end = end + 1;
    }
    proof {
        lemma_c_str(bytes@, end as int);
    }
    decode_text(&bytes[0..end])
}

} // verus!
