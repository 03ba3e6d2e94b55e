//! The unix socket between the short-lived `relay` command line and the
//! resident app: one request line in, one response line out, then the
//! connection closes. Sockets, timers and JSON belong to the platform layer;
//! what each side makes of what arrived is here.

use vstd::prelude::*;

use crate::text::{chars_of, concat, decimal, decimal_text, trim_bounds, trimmed};

verus! {

/// How long the command line waits for its short request line to be written.
pub const WRITE_TIMEOUT_MS: u64 = 5000;
/// How long a connected client has to send its request line: anything slower
/// is a client that died mid-write or one that is not going to ask anything.
pub const READ_TIMEOUT_MS: u64 = 5000;
/// The longest request line the server reads. Every request is a handful of
/// bytes; the cap keeps a stray writer from growing the buffer without end.
pub const MAX_REQUEST_BYTES: u64 = 65536;

/// What the server heard from a client.
#[derive(Clone, Copy, Debug, PartialEq, Eq)]
pub enum Heard {
    /// Nothing within the read timeout: the client is told so and dropped.
    Silent,
    /// The client connected and left without asking anything: nobody to
    /// answer.
    Left,
    /// More than the cap: the client is told so, the line is not read.
    TooLong,
    /// A line to read as a request.
    Line,
}

/// What the server makes of a read that ended with `read` bytes, or with the
/// timeout (`None`). The server reads one byte past the cap, so that reaching
/// it is told apart from a line exactly as long as a request may be.
pub open spec fn spec_hear(read: Option<u64>) -> Heard {
    match read {
        None => Heard::Silent,
        Some(n) => if n == 0 {
            Heard::Left
        } else if n > MAX_REQUEST_BYTES {
            Heard::TooLong
        } else {
            Heard::Line
        },
    }
}

pub fn hear(read: Option<u64>) -> (r: Heard)
    ensures
        r == spec_hear(read),
{
    match read {
        None => Heard::Silent,
        Some(n) => if n == 0 {
            Heard::Left
        } else if n > MAX_REQUEST_BYTES {
            Heard::TooLong
        } else {
            Heard::Line
        },
    }
}

/// The error a silent client is answered with.
pub fn silent_message() -> (r: String)
    ensures
        r@ == "no request within "@ + decimal((READ_TIMEOUT_MS / 1000) as nat) + "s"@,
{
    let secs = decimal_text(READ_TIMEOUT_MS / 1000);
    let head = concat("no request within ", secs.as_str());
    concat(head.as_str(), "s")
}

/// The error an oversized request is answered with.
pub fn too_long_message() -> (r: String)
    ensures
        r@ == "the request is too long: more than "@ + decimal(MAX_REQUEST_BYTES as nat) + " bytes"@,
{
    let cap = decimal_text(MAX_REQUEST_BYTES);
    let head = concat("the request is too long: more than ", cap.as_str());
    concat(head.as_str(), " bytes")
}

/// The error a line that is not a request is answered with; `why` is what
/// reading it said.
pub fn unreadable_message(why: &str) -> (r: String)
    ensures
        r@ == "cannot read the request: "@ + why@,
{
    concat("cannot read the request: ", why)
}

/// Did the app close the connection without answering? An answer that is
/// nothing but whitespace is no answer.
pub fn no_answer(answer: &str) -> (r: bool)
    ensures
        r == (trimmed(answer@).len() == 0),
{
    let v = chars_of(answer);
    let (lo, hi) = trim_bounds(&v, 0, v.len());
    proof {
        assert(v@.subrange(0, v@.len() as int) == v@);
    }
    lo == hi
}

} // verus!
