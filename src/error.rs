use vstd::prelude::*;

verus! {

/// The system error number of an interrupted call.
pub const INTERRUPTED: i32 = 4;

/// A failure against the kernel notification channel.
#[derive(Clone, Copy, Debug, PartialEq, Eq, Structural, Hash)]
pub enum ChannelError {
    /// The kernel refused the operation with this system error number.
    Os { errno: i32 },
    /// Every identity has been handed out.
    Exhausted,
    /// The channel reached its end of stream.
    Closed,
    /// A read reported more records than were asked for.
    Overrun { count: usize },
}

/// A readiness byte stream that does not hold whole, representable records.
#[derive(Clone, Copy, Debug, PartialEq, Eq, Structural, Hash)]
pub enum DecodeError {
    /// The length is not a multiple of the record size.
    Length { len: usize },
    /// A descriptor or tag does not fit a machine word.
    Overflow,
    /// A tag names no value of the caller's tag type.
    UnknownTag { tag: usize },
}

/// What a raw kernel call result means: values in the top 4095 of the word
/// are negated error numbers, all others are successes.
pub open spec fn demux_spec(res: usize) -> Result<usize, ChannelError> {
    if res > usize::MAX - 4095 {
        Err(ChannelError::Os { errno: (usize::MAX - res + 1) as i32 })
    } else {
        Ok(res)
    }
}

/// Relies on libredox::error::Error::demux, which splits a raw call result
/// into a success value or an error number (read back with `errno`).
#[verifier::external_body]
pub(crate) fn demux(res: usize) -> (r: Result<usize, ChannelError>)
    ensures
        r == demux_spec(res),
{
    libredox::error::Error::demux(res).map_err(|e| ChannelError::Os { errno: e.errno() })
}

/// Relies on libredox::error::Error::is_interrupt, which tells whether an
/// error number (kept as is when it fits 16 bits) is EINTR, which is 4.
#[verifier::external_body]
pub(crate) fn is_interrupt(errno: i32) -> (r: bool)
    ensures
        r == (errno == INTERRUPTED),
{
    libredox::error::Error::new(errno).is_interrupt()
}

} // verus!
