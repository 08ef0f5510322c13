//! Companion-side failure classes and the native-messaging frame written by
//! the relay: a little-endian `u32` length followed by the body.
use vstd::prelude::*;

verus! {

/// Fixed classification; never carries a frame, path, key or underlying exception.
#[derive(Debug, Clone, Copy, PartialEq, Eq, Structural)]
pub enum RelayError {
    /// A pump or child could not start.
    Start,
    /// An inbound frame was malformed or unreadable.
    Input,
    /// An outbound frame was invalid or could not be written.
    Output,
    /// The local transport failed.
    Transport,
    /// Children or worker threads could not be retired cleanly.
    Retirement,
}

/// Fixed classification, never underlying paths, URLs or diagnostic strings.
#[derive(Debug, Clone, Copy, PartialEq, Eq, Structural)]
pub enum WorkerError {
    /// Runtime, configuration or state ownership could not be established.
    Startup,
    /// Engine event processing or shutdown failed.
    Engine,
    /// Local transport startup or joined session retirement failed.
    Bridge,
    /// The retained worker panicked.
    Join,
}

/// The four little-endian bytes of a length.
pub open spec fn le_u32_bytes(n: u32) -> Seq<u8> {
    seq![(n % 0x100) as u8, ((n / 0x100) % 0x100) as u8, ((n / 0x1_0000) % 0x100) as u8, (n / 0x100_0000) as u8]
}

/// The frame for a body: its length as a little-endian `u32`, then the body.
pub open spec fn frame_of(body: Seq<u8>) -> Seq<u8> {
    le_u32_bytes(body.len() as u32) + body
}

/// Frames one outbound message. A body must be non-empty and at most
/// `max_message_bytes` long (and its length must fit in a `u32`); any other
/// body is an `Output` failure.
pub fn frame_message(body: &[u8], max_message_bytes: usize) -> (frame: Result<Vec<u8>, RelayError>)
    ensures
        frame is Ok <==> 0 < body@.len() <= max_message_bytes && body@.len() <= u32::MAX,
        frame matches Ok(f) ==> f@ == frame_of(body@),
        frame matches Err(e) ==> e == RelayError::Output,
{
    if body.len() == 0 || body.len() > max_message_bytes {
        return Err(RelayError::Output);
    }
    if body.len() > u32::MAX as usize {
        return Err(RelayError::Output);
    }
    let n = body.len() as u32;
    let mut out: Vec<u8> = Vec::new();
    out.push((n % 0x100) as u8);
    out.push(((n / 0x100) % 0x100) as u8);
    out.push(((n / 0x1_0000) % 0x100) as u8);
    out.push((n / 0x100_0000) as u8);
    let mut i: usize = 0;
    while i < body.len()
        invariant
            0 <= i <= body@.len(),
            n == body@.len(),
            out@ == le_u32_bytes(n) + body@.take(i as int),
        decreases body@.len() - i,
    {
        out.push(body[i]);
        proof {
            assert(body@.take(i + 1) =~= body@.take(i as int).push(body@[i as int]));
        }
        i += 1;
    }
    proof {
        assert(body@.take(body@.len() as int) =~= body@);
    }
    Ok(out)
}

/// The output child acknowledges a completed write with the single byte `1`.
pub fn check_acknowledgement(marker: u8) -> (checked: Result<(), RelayError>)
    ensures
        checked is Ok <==> marker == 1,
        checked matches Err(e) ==> e == RelayError::Output,
{
    if marker == 1 {
        Ok(())
    } else {
        Err(RelayError::Output)
    }
}

} // verus!
