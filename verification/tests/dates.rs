use chrono::Datelike;

use friendgrow::check_frequency;
use friendgrow::check_new_seen;
use friendgrow::check_new_seen_on;
use friendgrow::local_today;
use friendgrow::parse_date;
use friendgrow::Date;
use friendgrow::FriendError;

#[test]
fn test_parse_date() {
    let correct = Date::new(2021, 10, 26).unwrap();
    let res = parse_date("2021-10-26");
    assert_eq!(res.unwrap(), correct);

    // Unpadded digits are not a well-formed YYYY-MM-DD date.
    let res = parse_date("100-2-3");
    assert!(res.is_err());

    let correct = Date::new(100, 2, 3).unwrap();
    let res = parse_date("0100-02-03");
    assert_eq!(res.unwrap(), correct);
}

#[test]
fn test_parse_date_errors() {
    assert!(parse_date("").is_err());
}

#[test]
fn test_parse_date_month_day_flipped() {
    assert!(parse_date("2021-20-10").is_err());
}

#[test]
fn test_parse_date_rejects_malformed() {
    assert_eq!(parse_date("2021-10"), Err(FriendError::DateFormat));
    assert_eq!(parse_date("2021-10-26-"), Err(FriendError::DateFormat));
    assert_eq!(parse_date("10000-01-01"), Err(FriendError::DateFormat));
    assert_eq!(parse_date("0000-01-01"), Err(FriendError::DateFormat));
    assert_eq!(parse_date("2021-02-29"), Err(FriendError::DateFormat));
    assert_eq!(parse_date("2020-02-29").unwrap(), Date::new(2020, 2, 29).unwrap());
    assert_eq!(parse_date("2021-4-30"), Err(FriendError::DateFormat));
    assert_eq!(parse_date("2021-04-3"), Err(FriendError::DateFormat));
    assert_eq!(parse_date("221-04-03"), Err(FriendError::DateFormat));
    assert_eq!(parse_date("not a date"), Err(FriendError::DateFormat));
}

#[test]
fn test_parse_dates_distinct_and_ordered() {
    let early = parse_date("0100-02-03").unwrap();
    let late = parse_date("2021-10-26").unwrap();
    assert_ne!(early, late);
    assert!(early.to_day_number() < late.to_day_number());
}

#[test]
fn test_to_iso_string() {
    assert_eq!(Date::new(100, 2, 3).unwrap().to_iso_string(), "0100-02-03");
    assert_eq!(Date::new(2021, 10, 26).unwrap().to_iso_string(), "2021-10-26");
    let d = parse_date("0987-06-05").unwrap();
    assert_eq!(d.to_iso_string(), "0987-06-05");
}

#[test]
fn test_check_frequency() {
    let check = check_frequency(1);
    assert!(check.is_ok());
    let check = check_frequency(20);
    assert!(check.is_ok());
    let check = check_frequency(52);
    assert!(check.is_ok());
}

#[test]
fn test_check_frequency_zero() {
    let check = check_frequency(0);
    assert!(check.is_err());
}

#[test]
fn test_check_frequency_negative() {
    let check = check_frequency(-1);
    assert!(check.is_err());
}

#[test]
fn test_check_frequency_big() {
    let check = check_frequency(53);
    assert!(check.is_err());
}

#[test]
fn test_check_frequency_error_variant() {
    assert_eq!(check_frequency(0), Err(FriendError::FrequencyOutOfRange));
    assert_eq!(check_frequency(53), Err(FriendError::FrequencyOutOfRange));
}

#[test]
fn test_check_new_seen() {
    let new_date = Date::new(102, 2, 5).unwrap();
    let check = check_new_seen(new_date, Some("0100-02-04".to_string()));
    assert!(check.is_ok());
    let check = check_new_seen(new_date, Some("0101-12-03".to_string()));
    assert!(check.is_ok());
    let check = check_new_seen(new_date, None);
    assert!(check.is_ok());
}

#[test]
fn test_check_new_seen_earlier() {
    let new_date = Date::new(200, 4, 7).unwrap();
    let check = check_new_seen(new_date, Some("0200-04-08".to_string()));
    assert!(check.is_err());
}

#[test]
fn test_check_new_seen_future() {
    let next = chrono::Local::now().date_naive() + chrono::Days::new(1);
    let tomorrow = Date::new(next.year(), next.month(), next.day()).unwrap();
    let check = check_new_seen(tomorrow, None);
    assert!(check.is_err());
}

#[test]
fn test_check_new_seen_on_variants() {
    let today = Date::new(2021, 5, 1).unwrap();
    let new_date = Date::new(2021, 4, 7).unwrap();
    assert_eq!(
        check_new_seen_on(new_date, Some("2021-04-08".to_string()), today),
        Err(FriendError::SeenMoreRecently)
    );
    assert_eq!(
        check_new_seen_on(new_date, Some("nonsense".to_string()), today),
        Err(FriendError::DateFormat)
    );
    let future = Date::new(2021, 5, 2).unwrap();
    assert_eq!(check_new_seen_on(future, None, today), Err(FriendError::SeenInFuture));
    assert_eq!(check_new_seen_on(new_date, Some("2021-04-07".to_string()), today), Ok(()));
    assert_eq!(check_new_seen_on(new_date, None, today), Ok(()));
}

#[test]
fn test_local_today_matches_clock() {
    let before = chrono::Local::now().date_naive();
    let t = local_today().unwrap();
    let after = chrono::Local::now().date_naive();
    let matches_day = |c: chrono::NaiveDate| {
        t.year == c.year() && t.month as u32 == c.month() && t.day as u32 == c.day()
    };
    assert!(matches_day(before) || matches_day(after));
}
