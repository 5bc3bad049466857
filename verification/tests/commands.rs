use friendgrow::add_friend;
use friendgrow::list_upcoming;
use friendgrow::record_seen;
use friendgrow::Date;
use friendgrow::DueDays;
use friendgrow::Friend;
use friendgrow::FriendError;
use friendgrow::UpcomingFriends;
use friendgrow::DEFAULT_FREQ_WEEKS;

fn friend_a() -> Friend {
    Friend {
        id: 1,
        name: "A".to_string(),
        location: "Here".to_string(),
        freq_weeks: 2,
        last_seen: Some("2021-04-01".to_string()),
    }
}

fn friend_b() -> Friend {
    Friend {
        id: 2,
        name: "B".to_string(),
        location: "There".to_string(),
        freq_weeks: 2,
        last_seen: None,
    }
}

#[test]
fn test_add_friend_default_frequency() {
    let new = add_friend("Ada".to_string(), "Avon".to_string(), None);
    assert_eq!(new.name, "Ada");
    assert_eq!(new.location, "Avon");
    assert_eq!(new.freq_weeks, DEFAULT_FREQ_WEEKS);

    let new = add_friend("Bea".to_string(), "Brum".to_string(), Some(3));
    assert_eq!(new.freq_weeks, 3);
}

#[test]
fn test_record_seen_ok() {
    let today = Date::new(2021, 5, 1).unwrap();
    let stored = record_seen("2021-04-07", Some("2021-04-01".to_string()), today).unwrap();
    assert_eq!(stored, Date::new(2021, 4, 7).unwrap());
    assert_eq!(stored.to_iso_string(), "2021-04-07");
}

#[test]
fn test_record_seen_errors() {
    let today = Date::new(2021, 5, 1).unwrap();
    assert_eq!(
        record_seen("soon", Some("2021-04-01".to_string()), today),
        Err(FriendError::DateFormat)
    );
    assert_eq!(
        record_seen("2021-04-07", Some("2021-04-08".to_string()), today),
        Err(FriendError::SeenMoreRecently)
    );
    assert_eq!(record_seen("2021-05-02", None, today), Err(FriendError::SeenInFuture));
}

#[test]
fn test_end_to_end_scenario() {
    // Friend A, last seen on the first of April 2021 with a two-week
    // interval, is due on the fifteenth.
    let early = Date::new(2021, 4, 2).unwrap();
    let late = Date::new(2021, 4, 20).unwrap();

    assert_eq!(friend_a().days_until_due(early).unwrap(), DueDays::DueIn(13));
    assert_eq!(friend_a().days_until_due(late).unwrap(), DueDays::OverDue(5));
    assert_eq!(friend_b().days_until_due(early).unwrap(), DueDays::NotSeen);
    assert_eq!(friend_b().days_until_due(late).unwrap(), DueDays::NotSeen);

    // B is retained and outranks A on both days.
    for today in [early, late] {
        let mut queue = UpcomingFriends::with_cutoff(15);
        queue.push(friend_a(), today).unwrap();
        queue.push(friend_b(), today).unwrap();
        let drained = queue.drain_sorted();
        assert_eq!(drained.len(), 2);
        assert_eq!(drained[0].0.name, "B");
        assert_eq!(drained[0].1, DueDays::NotSeen);
        assert_eq!(drained[1].0.name, "A");
    }
}

#[test]
fn test_list_upcoming_orders_and_filters() {
    let late = Date::new(2021, 4, 20).unwrap();
    let listed = list_upcoming(vec![friend_a(), friend_b()], late).unwrap();
    assert_eq!(listed.len(), 2);
    assert_eq!(listed[0].0.name, "B");
    assert_eq!(listed[0].1, DueDays::NotSeen);
    assert_eq!(listed[1].0.name, "A");
    assert_eq!(listed[1].1, DueDays::OverDue(5));

    // On the early day A is due in 13 days, past the default cutoff of 10,
    // so only B is listed.
    let early = Date::new(2021, 4, 2).unwrap();
    let listed = list_upcoming(vec![friend_a(), friend_b()], early).unwrap();
    assert_eq!(listed.len(), 1);
    assert_eq!(listed[0].0.name, "B");
}

#[test]
fn test_list_upcoming_fails_on_first_bad_record() {
    let today = Date::new(2021, 4, 20).unwrap();
    let mut bad = friend_a();
    bad.name = "C".to_string();
    bad.last_seen = Some("2021-99-01".to_string());
    let r = list_upcoming(vec![friend_b(), bad, friend_a()], today);
    assert_eq!(r.unwrap_err(), FriendError::DateFormat);
}

#[test]
fn test_error_messages() {
    assert_eq!(FriendError::DateFormat.message(), "date does not have format YYYY-MM-DD");
    assert_eq!(
        FriendError::FrequencyOutOfRange.message(),
        "must see friends between every 1 week and every 52 weeks"
    );
}
