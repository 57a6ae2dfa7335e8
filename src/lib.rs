//! A user-space event queue over a kernel readiness channel: registration of
//! descriptors under unique identities, dispatch of decoded readiness records
//! to per-identity handlers with a default fallback, and the checked decoding
//! of the packed record stream.

pub mod channel;
pub mod codec;
pub mod error;
pub mod laws;
pub mod queue;
pub mod raw;
pub mod scripted;
pub mod user_data;

pub use channel::{RawEventQueue, ReadStep};
pub use codec::{decode_batch, encode_batch, encode_record};
pub use error::{ChannelError, DecodeError};
pub use queue::{Event, EventQueue, Handler, Outcome, Registration, Target};
pub use raw::{EventFlags, RawEventV1, RECORD_SIZE};
pub use scripted::Scripted;
pub use user_data::UserData;
