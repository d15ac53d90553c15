//! The IO configurations a child process's streams can take. Each is a
//! marker that the process runner reads: inherit the parent's stream,
//! discard it, pipe it to another process, buffer it (as bytes or as
//! text), read it line by line, or write a buffer to the child's stdin.
use vstd::prelude::*;
use vstd::utf8::{decode_utf8, valid_utf8};

verus! {

/// Inherit the parent's stream.
#[derive(Debug, Clone, Copy, PartialEq, Eq, Structural)]
pub struct Inherit;

/// Discard the stream.
#[derive(Debug, Clone, Copy, PartialEq, Eq, Structural)]
pub struct Null;

/// Pipe the stream to another process.
#[derive(Debug, Clone, Copy, PartialEq, Eq, Structural)]
pub struct Pipe;

/// Buffer the output as bytes.
#[derive(Debug, Clone, Copy, PartialEq, Eq, Structural)]
pub struct Buffer;

/// Buffer the output as text (an error if it is not UTF-8).
#[derive(Debug, Clone, Copy, PartialEq, Eq, Structural)]
pub struct BufferString;

/// Read the output line by line, blocking.
#[derive(Debug, Clone, Copy, PartialEq, Eq, Structural)]
pub struct Lines;

/// Read the output line by line, asynchronously.
#[derive(Debug, Clone, Copy, PartialEq, Eq, Structural)]
pub struct CoLines;

/// cargo's stderr, which the cargo preset reads itself.
#[derive(Debug, Clone, Copy, PartialEq, Eq, Structural)]
pub struct CargoStubStdErr;

/// Write a buffer to the child's stdin.
pub struct Write<B>(pub B);

/// Inherit the parent's stream.
pub fn inherit() -> (r: Inherit)
    ensures
        r == Inherit,
{
    Inherit
}

/// Discard the stream.
pub fn null() -> (r: Null)
    ensures
        r == Null,
{
    Null
}

/// Pipe the stream to another process.
pub fn pipe() -> (r: Pipe)
    ensures
        r == Pipe,
{
    Pipe
}

/// Buffer the output as bytes.
pub fn buffer() -> (r: Buffer)
    ensures
        r == Buffer,
{
    Buffer
}

/// Buffer the output as text.
pub fn string() -> (r: BufferString)
    ensures
        r == BufferString,
{
    BufferString
}

/// Read the output line by line.
pub fn lines() -> (r: Lines)
    ensures
        r == Lines,
{
    Lines
}

/// Read the output line by line, asynchronously.
pub fn co_lines() -> (r: CoLines)
    ensures
        r == CoLines,
{
    CoLines
}

/// Write `buf` to the child's stdin.
pub fn write<B>(buf: B) -> (r: Write<B>)
    ensures
        r.0 == buf,
{
    Write(buf)
}

/// A child's output was not valid UTF-8 text.
#[derive(Debug, Clone, Copy, PartialEq, Eq, Structural)]
pub struct NotUtf8;

/// `String::from_utf8`: std documents that it succeeds exactly on valid
/// UTF-8, and the string then holds the characters the bytes encode.
#[verifier::external_body]
fn string_from_utf8(buf: Vec<u8>) -> (r: Option<String>)
    ensures
        r is Some <==> valid_utf8(buf@),
        r matches Some(s) ==> s@ == decode_utf8(buf@),
{
    String::from_utf8(buf).ok()
}

/// The whole output of a child as text (what `BufferString` hands back):
/// the characters its bytes encode, or `NotUtf8` when they are not UTF-8.
pub fn output_as_string(buf: Vec<u8>) -> (r: Result<String, NotUtf8>)
    ensures
        match r {
            Ok(s) => valid_utf8(buf@) && s@ == decode_utf8(buf@),
            Err(_) => !valid_utf8(buf@),
        },
{
    match string_from_utf8(buf) {
        Some(s) => Ok(s),
        None => Err(NotUtf8),
    }
}

} // verus!
