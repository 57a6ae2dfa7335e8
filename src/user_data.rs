use vstd::prelude::*;

use crate::error::DecodeError;

verus! {

/// A value that travels through the channel as the tag of a subscription.
/// Decoding is checked: a tag that names no value is a `DecodeError`.
pub trait UserData: Sized + Copy {
    /// The tag that stands for this value.
    spec fn tag(self) -> usize;

    /// Whether `tag` stands for some value.
    spec fn names_value(tag: usize) -> bool;

    fn into_user_data(self) -> (r: usize)
        ensures
            r == self.tag(),
            Self::names_value(r),
    ;

    fn from_user_data(user_data: usize) -> (r: Result<Self, DecodeError>)
        ensures
            r is Ok <==> Self::names_value(user_data),
            r is Ok ==> r->Ok_0.tag() == user_data,
            r is Err ==> r == Err::<Self, DecodeError>(DecodeError::UnknownTag { tag: user_data }),
    ;
}

impl UserData for usize {
    open spec fn tag(self) -> usize {
        self
    }

    open spec fn names_value(tag: usize) -> bool {
        true
    }

    fn into_user_data(self) -> (r: usize) {
        self
    }

    fn from_user_data(user_data: usize) -> (r: Result<usize, DecodeError>) {
        Ok(user_data)
    }
}

} // verus!
