use vstd::prelude::*;

use crate::dates::day_number;
use crate::dates::Date;
use crate::errors::FriendError;
use crate::parse::parse_date;
use crate::parse::spec_parse_date;
use crate::upcoming::display_chars;
use crate::upcoming::DueDays;

verus! {

/// A tracked person: a name, where they live, how often to see them, and
/// when they were last seen (`None` when never recorded).
#[derive(Debug)]
pub struct Friend {
    pub id: i32,
    pub name: String,
    pub location: String,
    pub freq_weeks: i32,
    pub last_seen: Option<String>,
}

impl Clone for Friend {
    /// A clone carries the very same fields.
    fn clone(&self) -> (r: Self)
        ensures
            r == *self,
    {
        Friend {
            id: self.id,
            name: self.name.clone(),
            location: self.location.clone(),
            freq_weeks: self.freq_weeks,
            last_seen: match &self.last_seen {
                Some(s) => Some(s.clone()),
                None => None,
            },
        }
    }
}

/// A person about to be stored: everything but the storage key.
#[derive(Debug)]
pub struct NewFriend {
    pub name: String,
    pub location: String,
    pub freq_weeks: i32,
}

/// The due status a friend is owed on a given day. With no last-seen date
/// the friend was never seen. Otherwise the visit falls due `freq_weeks`
/// weeks after the last one; days past that day count as overdue, days up to
/// it as due-in. A last-seen value that is no date, and a day count beyond
/// the sixteen-bit range, are refused rather than bent.
pub open spec fn due_status_of(f: Friend, today: Date) -> Result<DueDays, FriendError> {
    match f.last_seen {
        None => Ok(DueDays::NotSeen),
        Some(s) => match spec_parse_date(s@) {
            None => Err(FriendError::DateFormat),
            Some(last) => {
                let delta = day_number(last) + 7 * f.freq_weeks - day_number(today);
                if delta < 0 {
                    if -delta <= u16::MAX {
                        Ok(DueDays::OverDue((-delta) as u16))
                    } else {
                        Err(FriendError::Arithmetic)
                    }
                } else {
                    if delta <= u16::MAX {
                        Ok(DueDays::DueIn(delta as u16))
                    } else {
                        Err(FriendError::Arithmetic)
                    }
                }
            },
        },
    }
}

impl Friend {
    /// Computes the friend's due status on `today`, exactly as
    /// `due_status_of` defines it.
    pub fn days_until_due(&self, today: Date) -> (r: Result<DueDays, FriendError>)
        requires
            self.freq_weeks >= 1,
            today.valid(),
        ensures
            r == due_status_of(*self, today),
    {
        let last_str = match &self.last_seen {
            None => {
                return Ok(DueDays::NotSeen);
            },
            Some(s) => s,
        };
        let last = match parse_date(last_str.as_str()) {
            Ok(d) => d,
            Err(e) => {
                return Err(e);
            },
        };
        let next_due = last.to_day_number() + 7 * (self.freq_weeks as i64);
        let delta = next_due - today.to_day_number();
        if delta < 0 {
            let mag = -delta;
            if mag > u16::MAX as i64 {
                return Err(FriendError::Arithmetic);
            }
            Ok(DueDays::OverDue(mag as u16))
        } else {
            if delta > u16::MAX as i64 {
                return Err(FriendError::Arithmetic);
            }
            Ok(DueDays::DueIn(delta as u16))
        }
    }

    /// The text a due status is shown as, when there is one.
    pub fn display_due_on(due_in_days: DueDays) -> (r: Option<String>)
        ensures
            r.deep_view() == display_chars(due_in_days),
    {
        due_in_days.display_some()
    }
}

/// A friend with no last-seen date is never seen, whatever today is.
pub proof fn lemma_never_seen(f: Friend, today: Date)
    requires
        f.last_seen is None,
    ensures
        due_status_of(f, today) == Ok::<DueDays, FriendError>(DueDays::NotSeen),
{
}

/// Status correctness at the due day: a friend last seen on `last` falls
/// due `freq_weeks` weeks later. On the due day itself the status is due in
/// zero days; one day later, overdue by one; one day earlier, due in one.
pub proof fn lemma_status_at_boundary(
    f: Friend,
    last: Date,
    on_due: Date,
    after: Date,
    before: Date,
)
    requires
        f.last_seen matches Some(s) && spec_parse_date(s@) == Some(last),
        day_number(on_due) == day_number(last) + 7 * f.freq_weeks,
        day_number(after) == day_number(last) + 7 * f.freq_weeks + 1,
        day_number(before) == day_number(last) + 7 * f.freq_weeks - 1,
    ensures
        due_status_of(f, on_due) == Ok::<DueDays, FriendError>(DueDays::DueIn(0)),
        due_status_of(f, after) == Ok::<DueDays, FriendError>(DueDays::OverDue(1)),
        due_status_of(f, before) == Ok::<DueDays, FriendError>(DueDays::DueIn(1)),
{
}

} // verus!
