use vstd::prelude::*;

use crate::error::{demux, demux_spec, is_interrupt, ChannelError, INTERRUPTED};
use crate::raw::{EventFlags, RawEventV1};

verus! {

/// What a batched read on the channel came to.
#[derive(Clone, Copy, Debug, PartialEq, Eq, Structural)]
pub enum ReadStep {
    /// This many records were filled, at least one and at most the capacity.
    Ready { count: usize },
    /// The call was interrupted: read again.
    Retry,
    /// End of stream on a closed channel.
    Closed,
    /// The read failed.
    Failed(ChannelError),
}

/// What a raw result of a batched read of at most `capacity` records means.
pub open spec fn read_step_spec(res: usize, capacity: usize) -> ReadStep {
    match demux_spec(res) {
        Ok(n) => if n == 0 {
            ReadStep::Closed
        } else if n > capacity {
            ReadStep::Failed(ChannelError::Overrun { count: n })
        } else {
            ReadStep::Ready { count: n }
        },
        Err(ChannelError::Os { errno }) => if errno == INTERRUPTED {
            ReadStep::Retry
        } else {
            ReadStep::Failed(ChannelError::Os { errno })
        },
        Err(e) => ReadStep::Failed(e),
    }
}

/// The handle of one open kernel notification channel, by its descriptor.
pub struct RawEventQueue {
    inner: usize,
}

impl RawEventQueue {
    pub closed spec fn handle(&self) -> usize {
        self.inner
    }

    /// Takes ownership of the channel that a raw create call returned, or
    /// gives back the error that it reported.
    pub fn new(create_result: usize) -> (r: Result<RawEventQueue, ChannelError>)
        ensures
            match demux_spec(create_result) {
                Ok(fd) => r.is_ok() && r.unwrap().handle() == fd,
                Err(e) => r == Err::<RawEventQueue, ChannelError>(e),
            },
    {
        match demux(create_result) {
            Ok(fd) => Ok(RawEventQueue { inner: fd }),
            Err(e) => Err(e),
        }
    }

    /// The descriptor of the channel.
    pub fn as_raw(&self) -> (r: usize)
        ensures
            r == self.handle(),
    {
        self.inner
    }

    /// The record that asks for `flags` readiness of `fd`, tagged with `user_data`.
    pub fn subscription(fd: usize, user_data: usize, flags: EventFlags) -> (r: RawEventV1)
        ensures
            r == (RawEventV1 { fd, user_data, flags: flags.bits }),
    {
        RawEventV1 { fd, user_data, flags: flags.bits() }
    }

    /// The record that cancels the subscription of `fd` made under `user_data`:
    /// the same record with no flag.
    pub fn unsubscription(fd: usize, user_data: usize) -> (r: RawEventV1)
        ensures
            r == (RawEventV1 { fd, user_data, flags: 0 }),
    {
        Self::subscription(fd, user_data, EventFlags::empty())
    }

    /// Whether a raw result of a subscribe or unsubscribe write is a success.
    pub fn settle_write(res: usize) -> (r: Result<(), ChannelError>)
        ensures
            match demux_spec(res) {
                Ok(_) => r is Ok,
                Err(e) => r == Err::<(), ChannelError>(e),
            },
    {
        match demux(res) {
            Ok(_) => Ok(()),
            Err(e) => Err(e),
        }
    }

    /// What a raw result of a batched read of at most `capacity` records
    /// means; interruptions become a retry, a count above `capacity` an error.
    pub fn settle_read(res: usize, capacity: usize) -> (r: ReadStep)
        ensures
            r == read_step_spec(res, capacity),
    {
        match demux(res) {
            Ok(n) => if n == 0 {
                ReadStep::Closed
            } else if n > capacity {
                ReadStep::Failed(ChannelError::Overrun { count: n })
            } else {
                ReadStep::Ready { count: n }
            },
            Err(ChannelError::Os { errno }) => if is_interrupt(errno) {
                ReadStep::Retry
            } else {
                ReadStep::Failed(ChannelError::Os { errno })
            },
            Err(e) => ReadStep::Failed(e),
        }
    }
}

} // verus!
