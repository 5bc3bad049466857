use friendgrow::Date;
use friendgrow::DueDays;
use friendgrow::Friend;
use friendgrow::UpcomingFriends;

fn named_friend(name: &str, freq_weeks: i32, last_seen: Option<&str>) -> Friend {
    Friend {
        id: 0,
        name: name.to_string(),
        location: "Somewhere".to_string(),
        freq_weeks,
        last_seen: last_seen.map(|s| s.to_string()),
    }
}

#[test]
fn test_queue_order() {
    let mut queue_by_due_days = UpcomingFriends::new();

    queue_by_due_days.push_status(named_friend("first", 1, None), DueDays::NotSeen);
    queue_by_due_days.push_status(named_friend("eighth", 1, None), DueDays::DueIn(16));
    queue_by_due_days.push_status(named_friend("ninth", 1, None), DueDays::DueIn(16));
    queue_by_due_days.push_status(named_friend("fourth", 1, None), DueDays::OverDue(5));
    queue_by_due_days.push_status(named_friend("second", 1, None), DueDays::NotSeen);
    queue_by_due_days.push_status(named_friend("seventh", 1, None), DueDays::DueIn(8));
    queue_by_due_days.push_status(named_friend("fifth", 1, None), DueDays::OverDue(0));
    queue_by_due_days.push_status(named_friend("third", 1, None), DueDays::OverDue(10));
    queue_by_due_days.push_status(named_friend("sixth", 1, None), DueDays::DueIn(0));

    let drained = queue_by_due_days.drain_sorted();
    assert_eq!(drained.len(), 9);

    assert_eq!(drained[0].1, DueDays::NotSeen);
    assert_eq!(drained[1].1, DueDays::NotSeen);

    assert_eq!(drained[2].0.name, "third");
    assert_eq!(drained[2].1, DueDays::OverDue(10));
    assert_eq!(drained[3].0.name, "fourth");
    assert_eq!(drained[3].1, DueDays::OverDue(5));
    assert_eq!(drained[4].0.name, "fifth");
    assert_eq!(drained[4].1, DueDays::OverDue(0));
    assert_eq!(drained[5].0.name, "sixth");
    assert_eq!(drained[5].1, DueDays::DueIn(0));
    assert_eq!(drained[6].0.name, "seventh");
    assert_eq!(drained[6].1, DueDays::DueIn(8));

    assert_eq!(drained[7].1, DueDays::DueIn(16));
    assert_eq!(drained[8].1, DueDays::DueIn(16));
}

#[test]
fn upcoming_test_display_due_on() {
    assert_eq!(DueDays::NotSeen.display_some(), None);
    assert_eq!(DueDays::OverDue(0).display_some(), Some("0 days ago".to_owned()));
    assert_eq!(DueDays::OverDue(5).display_some(), Some("5 days ago".to_owned()));
    assert_eq!(DueDays::DueIn(0).display_some(), Some("in 0 days".to_owned()));
    assert_eq!(DueDays::DueIn(24).display_some(), Some("in 24 days".to_owned()));
}

#[test]
fn test_rank_key_order() {
    // Never seen outranks the most overdue; overdue outranks due; among the
    // due, sooner outranks later.
    assert!(DueDays::NotSeen.rank_key() > DueDays::OverDue(u16::MAX).rank_key());
    assert!(DueDays::OverDue(0).rank_key() > DueDays::DueIn(0).rank_key());
    assert!(DueDays::OverDue(10).rank_key() > DueDays::OverDue(5).rank_key());
    assert!(DueDays::DueIn(0).rank_key() > DueDays::DueIn(8).rank_key());
    assert!(DueDays::DueIn(16).rank_key() < DueDays::DueIn(8).rank_key());
}

#[test]
fn test_cutoff_filtering() {
    // Under a look-ahead cutoff of 15 days, a friend due in 16 days is
    // dropped, one due in 15 is kept, and the overdue and never seen are
    // kept whatever their counts.
    let today = Date::new(2021, 4, 20).unwrap();
    let mut queue = UpcomingFriends::with_cutoff(15);

    // Due on 2021-05-06, sixteen days ahead.
    queue.push(named_friend("far", 1, Some("2021-04-29")), today).unwrap();
    // Due on 2021-05-05, fifteen days ahead.
    queue.push(named_friend("near", 1, Some("2021-04-28")), today).unwrap();
    // Due on 2021-01-08, long overdue.
    queue.push(named_friend("late", 1, Some("2021-01-01")), today).unwrap();
    queue.push(named_friend("unseen", 1, None), today).unwrap();

    let drained = queue.drain_sorted();
    assert_eq!(drained.len(), 3);
    assert_eq!(drained[0].0.name, "unseen");
    assert_eq!(drained[0].1, DueDays::NotSeen);
    assert_eq!(drained[1].0.name, "late");
    assert_eq!(drained[1].1, DueDays::OverDue(102));
    assert_eq!(drained[2].0.name, "near");
    assert_eq!(drained[2].1, DueDays::DueIn(15));
    assert!(drained.iter().all(|(f, _)| f.name != "far"));
}

#[test]
fn test_push_propagates_errors() {
    let today = Date::new(2021, 4, 20).unwrap();
    let mut queue = UpcomingFriends::new();
    assert!(queue.push(named_friend("bad", 1, Some("yesterday")), today).is_err());
    assert!(queue.drain_sorted().is_empty());
}

#[test]
fn test_drain_empty() {
    let queue = UpcomingFriends::new();
    assert!(queue.drain_sorted().is_empty());
}

#[test]
fn test_ties_drain_together() {
    // Two friends never seen, and two overdue by the same count, drain in
    // some deterministic order but always inside their rank band.
    let mut queue = UpcomingFriends::new();
    queue.push_status(named_friend("a", 1, None), DueDays::NotSeen);
    queue.push_status(named_friend("b", 1, None), DueDays::NotSeen);
    queue.push_status(named_friend("c", 1, None), DueDays::OverDue(3));
    queue.push_status(named_friend("d", 1, None), DueDays::OverDue(3));

    let drained = queue.drain_sorted();
    assert_eq!(drained.len(), 4);
    assert_eq!(drained[0].1, DueDays::NotSeen);
    assert_eq!(drained[1].1, DueDays::NotSeen);
    assert_eq!(drained[2].1, DueDays::OverDue(3));
    assert_eq!(drained[3].1, DueDays::OverDue(3));
    let mut names: Vec<&str> = drained.iter().map(|(f, _)| f.name.as_str()).collect();
    names.sort();
    assert_eq!(names, vec!["a", "b", "c", "d"]);
}
