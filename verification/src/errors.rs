use vstd::prelude::*;

verus! {

/// Everything that can go wrong while classifying or recording visits.
#[derive(Clone, Copy, Debug, PartialEq, Eq, Structural)]
pub enum FriendError {
    /// A stored last-seen value is not a well-formed `YYYY-MM-DD` calendar date.
    DateFormat,
    /// A day-delta magnitude does not fit the chosen unsigned width.
    Arithmetic,
    /// A desired visit interval lies outside the accepted range of weeks.
    FrequencyOutOfRange,
    /// A visit to be recorded is older than the one already on file.
    SeenMoreRecently,
    /// A visit to be recorded lies in the future.
    SeenInFuture,
}

impl FriendError {
    /// A short human-readable account of the error, for callers that print.
    pub fn message(&self) -> (r: &'static str)
        ensures
            r@ == self.spec_message(),
    {
        match self {
            FriendError::DateFormat => "date does not have format YYYY-MM-DD",
            FriendError::Arithmetic => "date difference is too large to track",
            FriendError::FrequencyOutOfRange => "must see friends between every 1 week and every 52 weeks",
            FriendError::SeenMoreRecently => "already seen more recently",
            FriendError::SeenInFuture => "cannot record in the future",
        }
    }

    /// The text that `message` returns for each variant.
    pub open spec fn spec_message(self) -> Seq<char> {
        match self {
            FriendError::DateFormat => "date does not have format YYYY-MM-DD"@,
            FriendError::Arithmetic => "date difference is too large to track"@,
            FriendError::FrequencyOutOfRange => "must see friends between every 1 week and every 52 weeks"@,
            FriendError::SeenMoreRecently => "already seen more recently"@,
            FriendError::SeenInFuture => "cannot record in the future"@,
        }
    }
}

} // verus!
