use friendgrow::Date;
use friendgrow::DueDays;
use friendgrow::Friend;
use friendgrow::FriendError;

fn test_friend(freq_weeks: i32, last_seen: Option<&str>) -> Friend {
    Friend {
        id: 1,
        name: "Test".to_string(),
        location: "Nowhere".to_string(),
        freq_weeks,
        last_seen: last_seen.map(|s| s.to_string()),
    }
}

#[test]
fn test_get_days_until_due_never_seen() {
    let today = Date::new(2021, 04, 02).unwrap();
    let friend = test_friend(2, None);

    assert_eq!(friend.days_until_due(today).unwrap(), DueDays::NotSeen);
}

#[test]
fn test_get_days_until_due_up_soon() {
    let today = Date::new(2021, 04, 02).unwrap();
    let friend = test_friend(2, Some("2021-04-01"));

    assert_eq!(friend.days_until_due(today).unwrap(), DueDays::DueIn(13));
}

#[test]
fn test_get_days_until_due_overdue() {
    let today = Date::new(2021, 04, 20).unwrap();
    let friend = test_friend(2, Some("2021-04-01"));

    assert_eq!(friend.days_until_due(today).unwrap(), DueDays::OverDue(5));
}

#[test]
fn models_test_display_due_on() {
    assert_eq!(Friend::display_due_on(DueDays::NotSeen), None);
    assert_eq!(Friend::display_due_on(DueDays::OverDue(0)), Some("0 days ago".to_owned()));
    assert_eq!(Friend::display_due_on(DueDays::OverDue(5)), Some("5 days ago".to_owned()));
    assert_eq!(Friend::display_due_on(DueDays::DueIn(0)), Some("in 0 days".to_owned()));
    assert_eq!(Friend::display_due_on(DueDays::DueIn(24)), Some("in 24 days".to_owned()));
}

#[test]
fn test_days_until_due_at_boundary() {
    let friend = test_friend(1, Some("2021-01-01"));
    let on_due = Date::new(2021, 1, 8).unwrap();
    let after = Date::new(2021, 1, 9).unwrap();
    let before = Date::new(2021, 1, 7).unwrap();

    assert_eq!(friend.days_until_due(on_due).unwrap(), DueDays::DueIn(0));
    assert_eq!(friend.days_until_due(after).unwrap(), DueDays::OverDue(1));
    assert_eq!(friend.days_until_due(before).unwrap(), DueDays::DueIn(1));
}

#[test]
fn test_days_until_due_bad_date() {
    let today = Date::new(2021, 04, 02).unwrap();
    let friend = test_friend(2, Some("2021-13-01"));

    assert_eq!(friend.days_until_due(today), Err(FriendError::DateFormat));
}

#[test]
fn test_days_until_due_too_far() {
    let today = Date::new(9999, 12, 31).unwrap();
    let friend = test_friend(1, Some("0100-01-01"));

    assert_eq!(friend.days_until_due(today), Err(FriendError::Arithmetic));
}

#[test]
fn test_days_until_due_across_leap_day() {
    let friend = test_friend(4, Some("2020-02-01"));
    let today = Date::new(2020, 02, 28).unwrap();

    // Four weeks from the first of February 2020 is the twenty-ninth.
    assert_eq!(friend.days_until_due(today).unwrap(), DueDays::DueIn(1));
    let later = Date::new(2020, 03, 01).unwrap();
    assert_eq!(friend.days_until_due(later).unwrap(), DueDays::OverDue(1));
}
