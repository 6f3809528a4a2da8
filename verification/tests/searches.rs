use eager_alarm_edge::alarm::{Alarm, Slot};
use eager_alarm_edge::calendar::{LocalDateTime, NaiveTime, Weekday};
use eager_alarm_edge::manager::{AlarmCommand, AlarmManager, CommandReply, Search, Wait};
use eager_alarm_edge::naive_time_hm;
use eager_alarm_edge::request::{request_action, AlarmRequest, RequestAction};
use eager_alarm_edge::store::PersistedState;

/// A Monday: January 1, 2024.
const MONDAY: i32 = 738_886;

fn at(day: i32, seconds: u32) -> LocalDateTime {
    LocalDateTime { date: MONDAY + day, time: NaiveTime::new(seconds, 0).unwrap(), offset: 0 }
}

fn alarm(id: u128) -> Alarm {
    Alarm {
        id,
        time: NaiveTime::new(27_000, 0).unwrap(),
        days_of_week: vec![Weekday::Mon],
        is_enabled: true,
        stop_method_id: None,
    }
}

fn searched(searches: &Vec<Search>) -> Vec<(u128, i64)> {
    let mut found: Vec<(u128, i64)> =
        searches.iter().map(|search| (search.alarm_id, search.base.utc_seconds())).collect();
    found.sort();
    found
}

/// A manager with the alarms 1, 2 and 3, and nothing pending.
fn manager_of_three() -> AlarmManager {
    let mut manager = AlarmManager::new();
    for id in 1..4u128 {
        manager.begin_command(AlarmCommand::Add(alarm(id)), at(0, 0), 0);
    }
    manager
}

fn soonest(manager: &mut AlarmManager) -> Option<i64> {
    match manager.next_wait() {
        Wait::Until(moment) => Some(moment.utc_seconds()),
        Wait::ForCommand => None,
    }
}

fn rung(manager: &mut AlarmManager) -> (u128, Search) {
    let start = manager.begin_fire().unwrap();
    (start.ring.unwrap().id, start.search)
}

#[test]
fn an_addition_searches_for_the_new_alarm_alone() {
    let mut manager = manager_of_three();
    let now = at(0, 100);
    let start = manager.begin_command(AlarmCommand::Add(alarm(4)), now, 0);
    assert_eq!(searched(&start.searches), vec![(4, now.utc_seconds())]);
    assert!(start.saves);
    assert!(start.stopped.is_empty());
    assert_eq!(start.reply, CommandReply::Nothing);
}

#[test]
fn an_edit_and_a_deletion_search_for_every_alarm_that_is_left() {
    let mut manager = manager_of_three();
    let now = at(0, 100);
    let start = manager.begin_command(AlarmCommand::Edit(alarm(2)), now, 0);
    let base = now.utc_seconds();
    assert_eq!(searched(&start.searches), vec![(1, base), (2, base), (3, base)]);
    let start = manager.begin_command(AlarmCommand::Delete(2), now, 0);
    assert_eq!(searched(&start.searches), vec![(1, base), (3, base)]);
    assert!(start.saves);
}

#[test]
fn a_question_or_a_pause_searches_for_nothing() {
    let mut manager = manager_of_three();
    for cmd in [AlarmCommand::List, AlarmCommand::RingingStatus, AlarmCommand::Pause(5)] {
        let start = manager.begin_command(cmd, at(0, 100), 0);
        assert!(start.searches.is_empty());
        assert!(!start.saves);
    }
}

#[test]
fn what_was_found_is_pending_soonest_first() {
    let mut manager = manager_of_three();
    let now = at(0, 0);
    let searches: Vec<Search> =
        [3u128, 1, 2].iter().map(|id| Search { alarm_id: *id, base: now }).collect();
    let wakeups = vec![Some(at(2, 0)), Some(at(1, 0)), None];
    manager.enqueue_all(&searches, &wakeups);
    assert_eq!(soonest(&mut manager), Some(at(1, 0).utc_seconds()));

    let (id, search) = rung(&mut manager);
    assert_eq!(id, 1);
    assert_eq!(search.alarm_id, 1);
    assert_eq!(search.base.utc_seconds(), at(1, 2).utc_seconds());
    assert_eq!(soonest(&mut manager), Some(at(2, 0).utc_seconds()));
    assert_eq!(rung(&mut manager).0, 3);
    assert_eq!(soonest(&mut manager), None);
    assert!(manager.begin_fire().is_none());
}

#[test]
fn a_stop_looks_for_the_alarms_that_rang_two_seconds_later() {
    let mut manager = manager_of_three();
    let now = at(0, 27_000);
    manager.enqueue_all(&vec![Search { alarm_id: 2, base: now }], &vec![Some(now)]);
    assert_eq!(rung(&mut manager).0, 2);
    let start = manager.begin_command(AlarmCommand::StopAll, now, 0);
    let base = now.utc_seconds();
    assert_eq!(searched(&start.searches), vec![(1, base), (2, base + 2), (3, base)]);
    assert_eq!(start.stopped, vec![2]);
    assert_eq!(soonest(&mut manager), None);
}

#[test]
fn a_search_for_an_alarm_that_is_not_there_finds_nothing() {
    let manager = manager_of_three();
    let mut off = AlarmManager::new();
    let mut silent = alarm(9);
    silent.is_enabled = false;
    off.begin_command(AlarmCommand::Add(silent), at(0, 0), 0);
    let unknown = vec![Search { alarm_id: 77, base: at(0, 0) }];
    assert!(manager.find_wakeups(&unknown)[0].is_none());
    assert!(off.find_wakeups(&vec![Search { alarm_id: 9, base: at(0, 0) }])[0].is_none());
}

#[test]
fn each_alarm_has_one_pending_ring() {
    let mut manager = manager_of_three();
    let now = at(0, 0);
    manager.handle_command_at(AlarmCommand::StopAll, now, 0).unwrap();
    manager.handle_command_at(AlarmCommand::Edit(alarm(1)), now, 0).unwrap();
    let mut ids: Vec<u128> = Vec::new();
    while let Some(start) = manager.begin_fire() {
        ids.push(start.ring.unwrap().id);
    }
    ids.sort();
    assert_eq!(ids, vec![1, 2, 3]);
}

#[test]
fn an_alarm_added_under_the_id_of_another_takes_its_place() {
    let mut manager = manager_of_three();
    let now = at(0, 25_200);
    let searches = vec![Search { alarm_id: 1, base: now }, Search { alarm_id: 2, base: now }];
    manager.enqueue_all(&searches, &vec![Some(at(0, 27_000)), Some(at(1, 0))]);
    let mut off = alarm(1);
    off.is_enabled = false;
    manager.handle_command_at(AlarmCommand::Add(off), at(0, 25_201), 0).unwrap();
    assert_eq!(soonest(&mut manager), Some(at(1, 0).utc_seconds()));
    assert_eq!(rung(&mut manager).0, 2);
    assert!(manager.begin_fire().is_none());
}

/// A moment on the first Monday, with a part of a second.
fn instant(seconds: u32, millis: u32) -> LocalDateTime {
    LocalDateTime {
        date: MONDAY,
        time: NaiveTime::new(seconds, millis * 1_000_000).unwrap(),
        offset: 0,
    }
}

/// When the alarm rings next, searched for as asked, in a zone with no offset.
fn next_in_utc(manager: &AlarmManager, searches: &Vec<Search>, alarm: &Alarm) -> Option<i64> {
    let search = searches.iter().find(|search| search.alarm_id == alarm.id).unwrap();
    let rung = manager.last_slot(alarm.id);
    let found = alarm.next_wakeup_but_with(search.base, &vec![Some(0); 8], rung);
    found.map(|moment| moment.utc_seconds())
}

#[test]
fn a_second_stop_does_not_bring_the_slot_back() {
    let mut manager = manager_of_three();
    let due = at(0, 27_000);
    manager.enqueue_all(&vec![Search { alarm_id: 1, base: due }], &vec![Some(due)]);
    assert_eq!(rung(&mut manager).0, 1);
    let next_week = Some(at(7, 27_000).utc_seconds());
    let first = manager.begin_command(AlarmCommand::StopAll, instant(27_000, 500), 0);
    assert_eq!(first.stopped, vec![1]);
    assert_eq!(next_in_utc(&manager, &first.searches, &alarm(1)), next_week);
    let second = manager.begin_command(AlarmCommand::StopAll, instant(27_000, 700), 0);
    assert!(second.stopped.is_empty());
    assert_eq!(next_in_utc(&manager, &second.searches, &alarm(1)), next_week);
    assert_eq!(next_in_utc(&manager, &second.searches, &alarm(2)), Some(due.utc_seconds()));
}

#[test]
fn a_second_stop_after_a_restart_does_not_bring_the_slot_back() {
    let state = PersistedState { alarms: vec![alarm(1)], ringing_ids: vec![1] };
    let mut manager =
        AlarmManager::with_store_at(b"alarms.json".to_vec(), state, at(0, 25_200)).manager;
    manager.begin_command(AlarmCommand::StopAll, instant(27_000, 500), 0);
    let second = manager.begin_command(AlarmCommand::StopAll, instant(27_000, 700), 0);
    let next_week = Some(at(7, 27_000).utc_seconds());
    assert_eq!(next_in_utc(&manager, &second.searches, &alarm(1)), next_week);
}

#[test]
fn a_change_of_another_alarm_does_not_bring_a_rung_slot_back() {
    let mut manager = manager_of_three();
    let due = at(0, 27_000);
    manager.enqueue_all(&vec![Search { alarm_id: 1, base: due }], &vec![Some(due)]);
    assert_eq!(rung(&mut manager).0, 1);
    assert_eq!(manager.last_slot(1), Some(Slot { date: MONDAY, time: alarm(1).time }));
    let next_week = Some(at(7, 27_000).utc_seconds());
    let now = instant(27_000, 300);
    let start = manager.begin_command(AlarmCommand::Delete(3), now, 0);
    let base = now.utc_seconds();
    assert_eq!(searched(&start.searches), vec![(1, base), (2, base)]);
    assert_eq!(next_in_utc(&manager, &start.searches, &alarm(1)), next_week);
    assert_eq!(next_in_utc(&manager, &start.searches, &alarm(2)), Some(due.utc_seconds()));
    let start = manager.begin_command(AlarmCommand::Edit(alarm(2)), instant(27_000, 400), 0);
    assert_eq!(next_in_utc(&manager, &start.searches, &alarm(1)), next_week);
    let start = manager.begin_command(AlarmCommand::Edit(alarm(1)), instant(27_000, 500), 0);
    assert_eq!(next_in_utc(&manager, &start.searches, &alarm(1)), next_week);
}

#[test]
fn an_edit_just_after_a_stop_finds_a_slot_that_did_not_ring() {
    let mut manager = AlarmManager::new();
    let mut early = alarm(1);
    early.time = NaiveTime::new(25_200, 0).unwrap();
    manager.begin_command(AlarmCommand::Add(early), at(0, 0), 0);
    let due = at(0, 25_200);
    manager.enqueue_all(&vec![Search { alarm_id: 1, base: due }], &vec![Some(due)]);
    assert_eq!(rung(&mut manager).0, 1);
    let stop = manager.begin_command(AlarmCommand::StopAll, instant(26_999, 500), 0);
    assert_eq!(searched(&stop.searches), vec![(1, at(0, 27_001).utc_seconds())]);
    let now = instant(26_999, 800);
    let edit = manager.begin_command(AlarmCommand::Edit(alarm(1)), now, 0);
    assert_eq!(searched(&edit.searches), vec![(1, now.utc_seconds())]);
    let found = next_in_utc(&manager, &edit.searches, &alarm(1));
    assert_eq!(found, Some(at(0, 27_000).utc_seconds()));
}

#[test]
fn a_clock_that_is_set_back_does_not_hold_an_alarm_up() {
    let mut manager = manager_of_three();
    let due = at(700, 27_000);
    manager.enqueue_all(&vec![Search { alarm_id: 1, base: due }], &vec![Some(due)]);
    assert_eq!(rung(&mut manager).0, 1);
    let start = manager.begin_command(AlarmCommand::Delete(3), at(0, 0), 0);
    let found = next_in_utc(&manager, &start.searches, &alarm(1));
    assert_eq!(found, Some(at(0, 27_000).utc_seconds()));
}

#[test]
fn a_requested_alarm_survives_a_restart_in_full() {
    let mut manager = AlarmManager::with_store_at(
        b"alarms.json".to_vec(),
        PersistedState { alarms: Vec::new(), ringing_ids: Vec::new() },
        at(0, 0),
    )
    .manager;
    let request = AlarmRequest::Add {
        time: naive_time_hm::deserialize("08:15").unwrap(),
        days_of_week: vec![Weekday::Mon, Weekday::Fri],
        is_enabled: true,
        stop_method_id: Some("geo:office".to_string()),
    };
    let cmd = match request_action(request, 42) {
        RequestAction::Tell(cmd) => cmd,
        other => panic!("not a command: {:?}", other),
    };
    let mut state = manager.handle_command_at(cmd, at(0, 0), 0).unwrap().save.unwrap().state;
    for kept in state.alarms.iter_mut() {
        let text = naive_time_hm::serialize(&kept.time);
        kept.time = naive_time_hm::deserialize(&text).unwrap();
    }
    let mut restarted =
        AlarmManager::with_store_at(b"alarms.json".to_vec(), state, at(3, 0)).manager;
    match restarted.handle_command_at(AlarmCommand::List, at(3, 0), 0).unwrap().reply {
        CommandReply::Alarms(list) => {
            assert_eq!(list.len(), 1);
            assert_eq!(list[0].id, 42);
            assert_eq!(list[0].time, NaiveTime::new(29_700, 0).unwrap());
            assert_eq!(list[0].days_of_week, vec![Weekday::Mon, Weekday::Fri]);
            assert_eq!(list[0].stop_method_id.as_deref(), Some("geo:office"));
        }
        other => panic!("no list: {:?}", other),
    }
}
