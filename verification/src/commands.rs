use vstd::prelude::*;

use crate::dates::spec_check_new_seen;
use crate::dates::Date;
use crate::errors::FriendError;
use crate::models::due_status_of;
use crate::models::Friend;
use crate::models::NewFriend;
use crate::parse::parse_date;
use crate::parse::spec_parse_date;
use crate::upcoming::more_urgent;
use crate::upcoming::retains;
use crate::upcoming::DueDays;
use crate::upcoming::UpcomingFriends;
use crate::upcoming::UP_SOON_CUTOFF_DAYS;

verus! {

/// The visit interval given to a friend added without one, in weeks.
pub const DEFAULT_FREQ_WEEKS: i32 = 10;

/// The column a listing of all friends is ordered by.
#[derive(Clone, Copy, Debug, PartialEq, Eq, Structural)]
pub enum ListOrderBy {
    Frequency,
    LastSeen,
}

/// Builds the record for a friend to be added: the given name and location,
/// and the given visit interval, or the default when none is given.
pub fn add_friend(name: String, location: String, freq_weeks: Option<i32>) -> (r: NewFriend)
    ensures
        r.name == name,
        r.location == location,
        r.freq_weeks == (match freq_weeks {
            Some(f) => f,
            None => DEFAULT_FREQ_WEEKS,
        }),
{
    let fw = match freq_weeks {
        Some(f) => f,
        None => DEFAULT_FREQ_WEEKS,
    };
    NewFriend { name, location, freq_weeks: fw }
}

/// The checked part of recording a visit: parses the given date, holds it
/// against the stored last-seen value and today, and hands back the date to
/// store.
pub fn record_seen(date: &str, last_seen: Option<String>, today: Date) -> (r: Result<
    Date,
    FriendError,
>)
    requires
        today.valid(),
    ensures
        match spec_parse_date(date@) {
            None => r == Err::<Date, FriendError>(FriendError::DateFormat),
            Some(d) => match spec_check_new_seen(d, last_seen.deep_view(), today) {
                Ok(u) => r == Ok::<Date, FriendError>(d),
                Err(e) => r == Err::<Date, FriendError>(e),
            },
        },
        r matches Ok(d) ==> d.valid(),
{
    let new_date = match parse_date(date) {
        Ok(d) => d,
        Err(e) => {
            return Err(e);
        },
    };
    match crate::dates::check_new_seen_on(new_date, last_seen, today) {
        Ok(u) => Ok(new_date),
        Err(e) => Err(e),
    }
}

/// What one listing run owes: statuses are computed friend by friend, in
/// order; the first failure fails the run; otherwise every friend whose
/// status is worth tracking is kept, paired with that status.
pub open spec fn spec_upcoming(friends: Seq<Friend>, today: Date, cutoff: u16) -> Result<
    Seq<(Friend, DueDays)>,
    FriendError,
>
    decreases friends.len(),
{
    if friends.len() == 0 {
        Ok(Seq::empty())
    } else {
        match spec_upcoming(friends.drop_last(), today, cutoff) {
            Err(e) => Err(e),
            Ok(s) => match due_status_of(friends.last(), today) {
                Err(e) => Err(e),
                Ok(st) => if retains(cutoff, st) {
                    Ok(s.push((friends.last(), st)))
                } else {
                    Ok(s)
                },
            },
        }
    }
}

/// Every entry of a successful run is one of the friends handed in.
proof fn lemma_upcoming_members(friends: Seq<Friend>, today: Date, cutoff: u16)
    requires
        spec_upcoming(friends, today, cutoff) is Ok,
    ensures
        forall|t: int|
            0 <= t < spec_upcoming(friends, today, cutoff)->Ok_0.len() ==> exists|i: int|
                0 <= i < friends.len() && (#[trigger] spec_upcoming(friends, today, cutoff)->Ok_0[t]).0
                    == friends[i],
    decreases friends.len(),
{
    if friends.len() > 0 {
        lemma_upcoming_members(friends.drop_last(), today, cutoff);
        let prev = spec_upcoming(friends.drop_last(), today, cutoff)->Ok_0;
        let cur = spec_upcoming(friends, today, cutoff)->Ok_0;
        assert forall|t: int| 0 <= t < cur.len() implies exists|i: int|
            0 <= i < friends.len() && (#[trigger] cur[t]).0 == friends[i] by {
            if t < prev.len() {
                let i = choose|i: int| 0 <= i < friends.drop_last().len() && prev[t].0
                    == friends.drop_last()[i];
                assert(0 <= i < friends.len() && cur[t].0 == friends[i]);
            } else {
                assert(cur[t].0 == friends[friends.len() - 1]);
            }
        }
    }
}

/// A failing friend fails the whole run with its own error, whatever
/// follows it.
proof fn lemma_upcoming_error(friends: Seq<Friend>, today: Date, cutoff: u16, k: int, e: FriendError)
    requires
        0 <= k < friends.len(),
        spec_upcoming(friends.subrange(0, k), today, cutoff) is Ok,
        due_status_of(friends[k], today) == Err::<DueDays, FriendError>(e),
    ensures
        spec_upcoming(friends, today, cutoff) == Err::<Seq<(Friend, DueDays)>, FriendError>(e),
    decreases friends.len(),
{
    if friends.len() == k + 1 {
        assert(friends.subrange(0, k) =~= friends.drop_last());
        assert(friends.last() == friends[k]);
    } else {
        assert(friends.drop_last().subrange(0, k) =~= friends.subrange(0, k));
        lemma_upcoming_error(friends.drop_last(), today, cutoff, k, e);
    }
}

/// Runs one upcoming listing over the given friends: each status is
/// computed for `today`, those worth tracking under the default cutoff are
/// kept, and they come back most urgent first. The first failing friend
/// fails the whole listing with its error. Each friend is listed once per
/// run, so the names handed in must be distinct.
pub fn list_upcoming(friends: Vec<Friend>, today: Date) -> (r: Result<
    Vec<(Friend, DueDays)>,
    FriendError,
>)
    requires
        today.valid(),
        forall|i: int| 0 <= i < friends@.len() ==> (#[trigger] friends@[i]).freq_weeks >= 1,
        forall|i: int, j: int|
            #![trigger friends@[i], friends@[j]]
            0 <= i < j < friends@.len() ==> friends@[i].name@ != friends@[j].name@,
    ensures
        match spec_upcoming(friends@, today, UP_SOON_CUTOFF_DAYS) {
            Err(e) => r == Err::<Vec<(Friend, DueDays)>, FriendError>(e),
            Ok(s) => r matches Ok(v) && v@.to_multiset() == s.to_multiset() && v@.len() == s.len()
                && forall|i: int, j: int|
                0 <= i < j < v@.len() ==> !more_urgent(#[trigger] v@[j].1, #[trigger] v@[i].1),
        },
{
    let mut upcoming = UpcomingFriends::new();
    let n = friends.len();
    let mut k: usize = 0;
    while k < n
        invariant
            n == friends@.len(),
            k <= n,
            today.valid(),
            forall|i: int| 0 <= i < friends@.len() ==> (#[trigger] friends@[i]).freq_weeks >= 1,
            forall|i: int, j: int|
                #![trigger friends@[i], friends@[j]]
                0 <= i < j < friends@.len() ==> friends@[i].name@ != friends@[j].name@,
            upcoming.wf(),
            upcoming.spec_cutoff() == UP_SOON_CUTOFF_DAYS,
            spec_upcoming(friends@.subrange(0, k as int), today, UP_SOON_CUTOFF_DAYS) == Ok::<
                Seq<(Friend, DueDays)>,
                FriendError,
            >(upcoming@),
        decreases n - k,
    {
        let f = friends[k].clone();
        proof {
            let prefix = friends@.subrange(0, k as int);
            lemma_upcoming_members(prefix, today, UP_SOON_CUTOFF_DAYS);
            assert forall|t: int| 0 <= t < upcoming@.len() implies (#[trigger] upcoming@[t]).0.name@
                != f.name@ by {
                let i = choose|i: int| 0 <= i < prefix.len() && upcoming@[t].0 == prefix[i];
                assert(prefix[i] == friends@[i]);
                assert(friends@[i].name@ != friends@[k as int].name@);
            }
        }
        match upcoming.push(f, today) {
            Ok(u) => {},
            Err(e) => {
                proof {
                    lemma_upcoming_error(friends@, today, UP_SOON_CUTOFF_DAYS, k as int, e);
                }
                return Err(e);
            },
        }
        k = k + 1;
        proof {
            assert(friends@.subrange(0, k as int).drop_last() =~= friends@.subrange(
                0,
                k as int - 1,
            ));
            assert(friends@.subrange(0, k as int).last() == friends@[k as int - 1]);
        }
    }
    proof {
        assert(friends@.subrange(0, n as int) =~= friends@);
    }
    Ok(upcoming.drain_sorted())
}

} // verus!
