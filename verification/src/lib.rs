//! Tracks friends, how often to see each one, and when each was last seen,
//! and ranks who is overdue or due soon for a visit.

pub mod commands;
pub mod dates;
pub mod decimal;
pub mod errors;
pub mod models;
pub mod parse;
pub mod pqueue;
pub mod upcoming;

pub use commands::add_friend;
pub use commands::list_upcoming;
pub use commands::record_seen;
pub use commands::ListOrderBy;
pub use commands::DEFAULT_FREQ_WEEKS;
pub use dates::check_frequency;
pub use dates::check_new_seen;
pub use dates::check_new_seen_on;
pub use dates::day_number;
pub use dates::local_today;
pub use dates::Date;
pub use dates::MAX_FREQ_WEEKS;
pub use errors::FriendError;
pub use models::due_status_of;
pub use models::Friend;
pub use models::NewFriend;
pub use parse::parse_date;
pub use upcoming::DueDays;
pub use upcoming::UpcomingFriends;
pub use upcoming::UP_SOON_CUTOFF_DAYS;
