use chrono::{Datelike, Timelike};
use eager_alarm_edge::alarm::{default_true, Alarm};
use eager_alarm_edge::calendar::{
    next_date, weekday_of, LocalDateTime, NaiveTime, Weekday, MAX_DATE, MIN_DATE,
};

/// A Monday: January 1, 2024.
const MONDAY: i32 = 738_886;

fn time(hour: u32, minute: u32, second: u32, nanos: u32) -> NaiveTime {
    NaiveTime::new(hour * 3600 + minute * 60 + second, nanos).unwrap()
}

fn at(date: i32, time: NaiveTime) -> LocalDateTime {
    LocalDateTime { date, time, offset: 3_600 }
}

fn alarm(days: Vec<Weekday>) -> Alarm {
    Alarm {
        id: 1,
        time: time(7, 30, 0, 0),
        days_of_week: days,
        is_enabled: true,
        stop_method_id: None,
    }
}

fn steady() -> Vec<Option<i32>> {
    vec![Some(3_600); 8]
}

fn parts(found: Option<LocalDateTime>) -> Option<(i32, u32, u32, i32)> {
    found.map(|moment| (moment.date, moment.time.seconds, moment.time.nanos, moment.offset))
}

#[test]
fn weekdays_follow_the_calendar() {
    assert_eq!(weekday_of(MONDAY), Weekday::Mon);
    assert_eq!(weekday_of(MONDAY + 2), Weekday::Wed);
    assert_eq!(weekday_of(MONDAY + 6), Weekday::Sun);
    // January 1, 1970, and January 1 of year 1.
    assert_eq!(weekday_of(719_163), Weekday::Thu);
    assert_eq!(weekday_of(1), Weekday::Mon);
    assert_eq!(weekday_of(0), Weekday::Sun);
    assert_eq!(weekday_of(MIN_DATE).monday_index() as i64, (MIN_DATE as i64 - 1).rem_euclid(7));
    assert_eq!(weekday_of(MAX_DATE).monday_index() as i64, (MAX_DATE as i64 - 1).rem_euclid(7));
    assert_eq!(Weekday::from_monday_index(7), None);
}

#[test]
fn the_calendar_ends_at_its_last_date() {
    assert_eq!(next_date(MONDAY), MONDAY + 1);
    assert_eq!(next_date(MIN_DATE), MIN_DATE + 1);
    assert_eq!(next_date(MAX_DATE - 1), MAX_DATE);
    assert_eq!(next_date(MAX_DATE), MAX_DATE);
}

#[test]
fn an_alarm_later_today_rings_today() {
    let now = at(MONDAY, time(7, 0, 0, 0));
    let found = alarm(vec![Weekday::Mon]).next_wakeup_with(now, &steady());
    assert_eq!(parts(found), Some((MONDAY, 27_000, 0, 3_600)));
}

#[test]
fn an_alarm_that_has_passed_rings_on_its_next_day() {
    let now = at(MONDAY, time(8, 0, 0, 0));
    let found = alarm(vec![Weekday::Mon, Weekday::Wed]).next_wakeup_with(now, &steady());
    assert_eq!(parts(found), Some((MONDAY + 2, 27_000, 0, 3_600)));
}

#[test]
fn an_alarm_on_one_day_rings_again_a_week_later() {
    let now = at(MONDAY, time(7, 30, 2, 0));
    let found = alarm(vec![Weekday::Mon]).next_wakeup_with(now, &steady());
    assert_eq!(parts(found), Some((MONDAY + 7, 27_000, 0, 3_600)));
}

#[test]
fn an_alarm_that_has_just_passed_rings_at_once() {
    let now = at(MONDAY, time(7, 30, 0, 999_999_999));
    let found = alarm(vec![Weekday::Mon]).next_wakeup_with(now, &steady());
    assert_eq!(parts(found), Some((MONDAY, 27_000, 999_999_999, 3_600)));

    let second_later = at(MONDAY, time(7, 30, 1, 0));
    let found = alarm(vec![Weekday::Mon]).next_wakeup_with(second_later, &steady());
    assert_eq!(parts(found), Some((MONDAY + 7, 27_000, 0, 3_600)));
}

#[test]
fn a_day_on_which_the_time_does_not_occur_once_is_passed_over() {
    let now = at(MONDAY, time(7, 0, 0, 0));
    let mut offsets = steady();
    offsets[0] = None;
    let found = alarm(vec![Weekday::Mon, Weekday::Tue]).next_wakeup_with(now, &offsets);
    assert_eq!(parts(found), Some((MONDAY + 1, 27_000, 0, 3_600)));

    let nowhere = vec![None; 8];
    assert_eq!(parts(alarm(vec![Weekday::Mon]).next_wakeup_with(now, &nowhere)), None);
}

#[test]
fn the_moment_of_a_ring_takes_the_offset_of_its_day() {
    let now = at(MONDAY, time(8, 0, 0, 0));
    let mut offsets = steady();
    offsets[1] = Some(7_200);
    let found = alarm(vec![Weekday::Tue]).next_wakeup_with(now, &offsets).unwrap();
    assert_eq!(parts(Some(found)), Some((MONDAY + 1, 27_000, 0, 7_200)));
    assert_eq!(found.utc_seconds(), (MONDAY as i64 + 1) * 86_400 + 27_000 - 7_200);
}

#[test]
fn an_alarm_that_is_off_or_has_no_day_does_not_ring() {
    let now = at(MONDAY, time(7, 0, 0, 0));
    let mut off = alarm(vec![Weekday::Mon]);
    off.is_enabled = false;
    assert_eq!(parts(off.next_wakeup_with(now, &steady())), None);
    assert_eq!(parts(off.next_wakeup_from(now)), None);
    assert_eq!(parts(alarm(Vec::new()).next_wakeup_with(now, &steady())), None);
    assert_eq!(parts(alarm(Vec::new()).next_wakeup_from(now)), None);
    assert!(default_true());
}

#[test]
fn the_time_zone_is_asked_about_the_days_of_the_alarm() {
    let now = at(MONDAY, time(8, 0, 0, 0));
    let some = |day: i32| Some((MONDAY + day, time(7, 30, 0, 0)));
    assert_eq!(
        alarm(vec![Weekday::Mon, Weekday::Wed]).slots_to_look_up(now),
        vec![some(0), None, some(2), None, None, None, None, some(7)]
    );
    assert_eq!(alarm(Vec::new()).slots_to_look_up(now), vec![None; 8]);
}

#[test]
fn a_later_search_finds_a_later_ring() {
    let daily = alarm(vec![Weekday::Mon, Weekday::Tue]);
    let first = daily.next_wakeup_with(at(MONDAY, time(7, 0, 0, 0)), &steady()).unwrap();
    let second = daily.next_wakeup_with(at(MONDAY, time(7, 45, 0, 0)), &steady()).unwrap();
    assert!(first < second);
    assert!(second.date > first.date);
}

#[test]
fn the_search_stays_on_the_last_date_of_the_calendar() {
    let now = LocalDateTime { date: MAX_DATE, time: time(8, 0, 0, 0), offset: 0 };
    let day = weekday_of(MAX_DATE);
    let offsets = vec![Some(0); 8];
    assert_eq!(parts(alarm(vec![day]).next_wakeup_with(now, &offsets)), None);
}

#[test]
fn the_local_time_zone_is_asked_for_the_next_ring() {
    let later = chrono::Local::now() + chrono::Duration::minutes(90);
    let day = Weekday::from_monday_index(later.weekday().num_days_from_monday()).unwrap();
    let mut ahead = alarm(vec![day]);
    ahead.time = NaiveTime::new(later.time().num_seconds_from_midnight(), 0).unwrap();
    let now = chrono::Local::now();
    let here = LocalDateTime {
        date: now.date_naive().num_days_from_ce(),
        time: NaiveTime::new(now.time().num_seconds_from_midnight(), 0).unwrap(),
        offset: now.offset().local_minus_utc(),
    };
    let found = ahead.next_wakeup_from(here).unwrap();
    assert_eq!(found.date, later.date_naive().num_days_from_ce());
    assert_eq!(found.time, ahead.time);
    assert_eq!(found.offset, later.offset().local_minus_utc());
}

#[test]
fn two_seconds_later_is_two_seconds_later() {
    let late = LocalDateTime { date: MONDAY, time: time(23, 59, 59, 250), offset: 0 };
    let after = late.two_seconds_later();
    assert_eq!(after.utc_seconds(), late.utc_seconds() + 2);
    assert_eq!(after.time.nanos, 250);

    let leap = LocalDateTime { date: MONDAY, time: time(23, 59, 59, 1_000_000_250), offset: 0 };
    let after = leap.two_seconds_later();
    assert_eq!(after.utc_seconds(), leap.utc_seconds() + 2);
    assert_eq!(after.time.nanos, 250);
}

#[test]
fn a_ring_is_not_found_again_two_seconds_later() {
    let now = at(MONDAY, time(7, 30, 0, 500));
    let weekly = alarm(vec![Weekday::Mon]);
    let rung = weekly.next_wakeup_with(now, &steady()).unwrap();
    assert_eq!(parts(Some(rung)), Some((MONDAY, 27_000, 500, 3_600)));
    let base = rung.two_seconds_later();
    let here = at(MONDAY, time(7, 30, 2, 500));
    assert!(base == here);
    let next = weekly.next_wakeup_with(here, &steady()).unwrap();
    assert_eq!(parts(Some(next)), Some((MONDAY + 7, 27_000, 0, 3_600)));
}

#[test]
fn the_time_left_counts_a_leap_second() {
    let leap = LocalDateTime { date: MONDAY, time: time(0, 0, 59, 1_500_000_000), offset: 0 };
    let next = LocalDateTime { date: MONDAY, time: time(0, 1, 0, 0), offset: 0 };
    assert_eq!(next.nanos_until(&leap), 500_000_000);
    let plain = LocalDateTime { date: MONDAY, time: time(0, 0, 59, 500_000_000), offset: 0 };
    assert_eq!(next.nanos_until(&plain), 500_000_000);
    assert_eq!(leap.nanos_until(&plain), 1_000_000_000);
    assert_eq!(plain.nanos_until(&next), 0);
    let abroad = LocalDateTime { date: MONDAY, time: time(9, 1, 0, 0), offset: 32_400 };
    assert_eq!(abroad.nanos_until(&plain), 500_000_000);
}

#[test]
fn times_of_day_are_checked() {
    assert!(NaiveTime::new(86_399, 1_999_999_999).is_some());
    assert!(NaiveTime::new(86_400, 0).is_none());
    assert!(NaiveTime::new(58, 1_000_000_000).is_none());
    assert!(NaiveTime::new(59, 2_000_000_000).is_none());
}
