use chrono::{Datelike, Local, Timelike};
use eager_alarm_edge::alarm::Alarm;
use eager_alarm_edge::calendar::{LocalDateTime, NaiveTime, Weekday, MAX_DATE, MIN_DATE};
use eager_alarm_edge::manager::{
    AlarmCommand, AlarmManager, CommandOutcome, CommandReply, Effect, Event, FireOutcome, Wait,
};
use eager_alarm_edge::mute::MuteStatus;
use eager_alarm_edge::schedule::ScheduledAlarm;

const MILLI: u128 = 1_000_000;

fn moment(at: chrono::DateTime<Local>) -> LocalDateTime {
    let time = at.time();
    LocalDateTime {
        date: at.date_naive().num_days_from_ce(),
        time: NaiveTime::new(time.num_seconds_from_midnight(), time.nanosecond()).unwrap(),
        offset: at.offset().local_minus_utc(),
    }
}

/// An alarm that rings every week at the given moment.
fn alarm_at(id: u128, at: chrono::DateTime<Local>) -> Alarm {
    let day = Weekday::from_monday_index(at.weekday().num_days_from_monday()).unwrap();
    Alarm {
        id,
        time: moment(at).time,
        days_of_week: vec![day],
        is_enabled: true,
        stop_method_id: None,
    }
}

fn give(manager: &mut AlarmManager, cmd: AlarmCommand) -> CommandOutcome {
    match manager.run_step(Event::Command(cmd)) {
        Effect::Handled(outcome) => outcome,
        other => panic!("not handled: {:?}", other),
    }
}

fn add(manager: &mut AlarmManager, alarm: Alarm) -> u128 {
    let (id, cmd) = manager.handle().add_alarm(alarm);
    give(manager, cmd);
    id
}

fn delete(manager: &mut AlarmManager, id: u128) -> CommandOutcome {
    let cmd = manager.handle().delete_alarm(id);
    give(manager, cmd)
}

fn list(manager: &mut AlarmManager) -> Vec<Alarm> {
    let reply = give(manager, AlarmCommand::List).reply;
    manager.handle().list_alarms(Some(reply))
}

fn ringing_ids(manager: &mut AlarmManager) -> Vec<u128> {
    let reply = give(manager, AlarmCommand::RingingStatus).reply;
    let status = manager.handle().get_ringing_status(Some(reply));
    assert_eq!(status.is_ringing, !status.ringing_ids.is_empty());
    status.ringing_ids
}

fn fire(manager: &mut AlarmManager) -> FireOutcome {
    match manager.run_step(Event::Deadline) {
        Effect::Fired(outcome) => outcome,
        other => panic!("nothing rang: {:?}", other),
    }
}

#[test]
fn alarm_ordering_is_by_wakeup_time() {
    let now = Local::now();
    let earlier = ScheduledAlarm { alarm_id: 2, next_wakeup: moment(now) };
    let later = ScheduledAlarm {
        alarm_id: 1,
        next_wakeup: moment(now + chrono::Duration::seconds(1)),
    };

    assert!(earlier < later);
}

#[test]
fn pending_rings_of_one_moment_are_equal_in_order_whatever_their_offsets() {
    let utc = LocalDateTime {
        date: 738_886,
        time: NaiveTime::new(3_600, 0).unwrap(),
        offset: 0,
    };
    let east = LocalDateTime {
        date: 738_886,
        time: NaiveTime::new(36_000, 0).unwrap(),
        offset: 32_400,
    };
    assert!(utc == east);
    let one = ScheduledAlarm { alarm_id: 1, next_wakeup: utc };
    let other = ScheduledAlarm { alarm_id: 1, next_wakeup: east };
    let third = ScheduledAlarm { alarm_id: 3, next_wakeup: east };
    assert!(one == other);
    assert!(one != third);
    assert!(!(one < third) && !(third < one));
}

#[test]
fn add_and_list_a_pending_alarm() {
    let mut manager = AlarmManager::new();

    let id = add(&mut manager, alarm_at(7, Local::now() + chrono::Duration::seconds(30)));
    let listed = list(&mut manager);

    assert_eq!(listed.len(), 1);
    assert_eq!(listed[0].id, id);
    assert!(ringing_ids(&mut manager).is_empty());
}

#[test]
fn delete_removes_a_pending_alarm_before_it_fires() {
    let mut manager = AlarmManager::new();

    let id = add(&mut manager, alarm_at(7, Local::now() + chrono::Duration::milliseconds(200)));
    assert!(matches!(manager.next_wait(), Wait::Until(_)));
    let outcome = delete(&mut manager, id);

    assert!(outcome.stopped.is_empty());
    assert!(list(&mut manager).is_empty());
    assert!(matches!(manager.next_wait(), Wait::ForCommand));
    assert_eq!(manager.run_step(Event::Deadline), Effect::Nothing);
}

#[test]
fn alarms_fire_in_wakeup_time_order_regardless_of_insertion_order() {
    let mut manager = AlarmManager::new();
    let now = Local::now();

    // Inserted out of chronological order on purpose.
    let id_300 = add(&mut manager, alarm_at(300, now + chrono::Duration::milliseconds(300)));
    let id_100 = add(&mut manager, alarm_at(100, now + chrono::Duration::milliseconds(100)));
    let id_200 = add(&mut manager, alarm_at(200, now + chrono::Duration::milliseconds(200)));

    let mut fired: Vec<u128> = Vec::new();
    for _ in 0..3 {
        fired.push(fire(&mut manager).ring.unwrap().id);
    }
    assert_eq!(fired, vec![id_100, id_200, id_300]);
}

#[test]
fn ringing_alarm_keeps_ringing_until_deleted() {
    let mut manager = AlarmManager::new();

    let id = add(&mut manager, alarm_at(7, Local::now()));
    assert_eq!(fire(&mut manager).ring.unwrap().id, id);
    give(&mut manager, AlarmCommand::Pause(50 * MILLI));
    assert_eq!(ringing_ids(&mut manager), vec![id]);
    assert_eq!(list(&mut manager).len(), 1);

    assert_eq!(delete(&mut manager, id).stopped, vec![id]);
    assert!(list(&mut manager).is_empty());
    assert!(ringing_ids(&mut manager).is_empty());
}

#[test]
fn stop_all_silences_ringing_alarms_and_keeps_every_alarm_scheduled() {
    let mut manager = AlarmManager::new();

    let now = Local::now();
    let ringing_id = add(&mut manager, alarm_at(1, now));
    let pending_id = add(&mut manager, alarm_at(2, now + chrono::Duration::seconds(30)));
    assert_eq!(fire(&mut manager).ring.unwrap().id, ringing_id);

    let cmd = manager.handle().stop_all();
    assert_eq!(give(&mut manager, cmd).stopped, vec![ringing_id]);
    assert!(ringing_ids(&mut manager).is_empty());
    assert_eq!(list(&mut manager).len(), 2);

    // The pending alarm comes next, and the one that was stopped a week later.
    assert_eq!(fire(&mut manager).ring.unwrap().id, pending_id);
    match manager.next_wait() {
        Wait::Until(next) => {
            let first = moment(now);
            assert!(next.utc_seconds() > first.utc_seconds() + 6 * 86_400);
            assert!(next.utc_seconds() < first.utc_seconds() + 8 * 86_400);
        }
        Wait::ForCommand => panic!("nothing is pending"),
    }
}

#[test]
fn pause_overwrites_rather_than_accumulates_and_then_auto_resumes() {
    let mut manager = AlarmManager::new();
    let now = moment(Local::now());

    for turn in 0..6u128 {
        let cmd = manager.handle().pause(300 * MILLI);
        manager.handle_command_at(cmd, now, turn * 100 * MILLI).unwrap();
    }
    let mute: MuteStatus = manager.mute_status();
    assert_eq!(mute.until(), Some(800 * MILLI));
    assert!(mute.is_muted_at(600 * MILLI));
    assert!(mute.is_muted_at(800 * MILLI - 1));
    assert!(!mute.is_muted_at(800 * MILLI));
    assert!(!mute.is_muted_at(1_100 * MILLI));
}

#[test]
fn edit_replaces_the_alarm_and_stops_it() {
    let mut manager = AlarmManager::new();
    let mut first = alarm_at(5, Local::now());
    first.stop_method_id = Some("geo:office".to_string());
    add(&mut manager, first);
    add(&mut manager, alarm_at(6, Local::now()));
    fire(&mut manager);
    fire(&mut manager);
    assert_eq!(ringing_ids(&mut manager).len(), 2);

    let mut edited = alarm_at(5, Local::now());
    edited.is_enabled = false;
    let cmd = manager.handle().edit_alarm(edited.clone());
    let outcome = give(&mut manager, cmd);
    assert_eq!(outcome.stopped, vec![5]);
    assert_eq!(outcome.reply, CommandReply::Nothing);
    assert_eq!(ringing_ids(&mut manager), vec![6]);
    let listed = list(&mut manager);
    let found: Vec<&Alarm> = listed.iter().filter(|alarm| alarm.id == 5).collect();
    assert_eq!(found, vec![&edited]);
}

#[test]
fn an_edit_of_an_alarm_that_does_not_exist_adds_it() {
    let mut manager = AlarmManager::new();
    let alarm = alarm_at(9, Local::now() + chrono::Duration::seconds(30));
    let outcome = give(&mut manager, AlarmCommand::Edit(alarm.clone()));
    assert!(outcome.stopped.is_empty());
    assert_eq!(list(&mut manager), vec![alarm]);
    assert!(matches!(manager.next_wait(), Wait::Until(_)));
}

#[test]
fn alarms_are_listed_by_time_of_day() {
    let mut manager = AlarmManager::new();
    for (id, seconds) in [(1u128, 80_000u32), (2, 100), (3, 43_200), (4, 100)] {
        add(
            &mut manager,
            Alarm {
                id,
                time: NaiveTime::new(seconds, 0).unwrap(),
                days_of_week: Vec::new(),
                is_enabled: true,
                stop_method_id: None,
            },
        );
    }
    let times: Vec<u32> = list(&mut manager).iter().map(|alarm| alarm.time.seconds).collect();
    assert_eq!(times, vec![100, 100, 43_200, 80_000]);
}

#[test]
fn an_alarm_that_cannot_ring_is_never_pending() {
    let mut manager = AlarmManager::new();
    let mut off = alarm_at(1, Local::now());
    off.is_enabled = false;
    add(&mut manager, off);
    let mut dayless = alarm_at(2, Local::now());
    dayless.days_of_week = Vec::new();
    add(&mut manager, dayless);
    assert!(matches!(manager.next_wait(), Wait::ForCommand));
    assert_eq!(list(&mut manager).len(), 2);
}

#[test]
fn a_manager_without_a_store_saves_nothing() {
    let mut manager = AlarmManager::default();
    let (_, cmd) = manager.handle().add_alarm(alarm_at(1, Local::now()));
    let outcome = give(&mut manager, cmd);
    assert_eq!(outcome.save, None);
    assert_eq!(fire(&mut manager).save, None);
}

#[test]
fn the_end_of_the_commands_stops_the_manager() {
    let mut manager = AlarmManager::new();
    assert_eq!(manager.run_step(Event::Closed), Effect::Stop);
}

#[test]
fn an_unanswered_question_gets_an_empty_answer() {
    let manager = AlarmManager::new();
    assert!(manager.handle().list_alarms(None).is_empty());
    let status = manager.handle().get_ringing_status(None);
    assert!(!status.is_ringing);
    assert!(status.ringing_ids.is_empty());
}

#[test]
fn a_deadline_lies_as_far_ahead_as_the_moment() {
    let now = LocalDateTime { date: 738_886, time: NaiveTime::new(10, 500).unwrap(), offset: 0 };
    let wakeup = LocalDateTime { date: 738_887, time: NaiveTime::new(9, 700).unwrap(), offset: 0 };
    let expected: u128 = 1_000 + 86_399 * 1_000_000_000 + 200;
    assert_eq!(AlarmManager::deadline_at(wakeup, now, 1_000), expected);
    assert_eq!(AlarmManager::deadline_at(now, wakeup, 1_000), 1_000);

    let manager = AlarmManager::new();
    let soon = moment(Local::now() + chrono::Duration::seconds(3_600));
    let reading = manager.deadline_for(soon);
    assert!(reading > 3_500 * 1_000_000_000 && reading <= 3_700 * 1_000_000_000);
}

#[test]
fn a_ring_at_the_end_of_the_calendar_is_not_taken() {
    let mut manager = AlarmManager::new();
    let mut alarm = alarm_at(1, Local::now());
    alarm.is_enabled = false;
    add(&mut manager, alarm);
    let last = LocalDateTime {
        date: MAX_DATE,
        time: NaiveTime::new(0, 0).unwrap(),
        offset: 0,
    };
    manager.enqueue(1, Some(last));
    assert_eq!(manager.run_step(Event::Deadline), Effect::EndOfCalendar);
    assert!(matches!(manager.next_wait(), Wait::Until(_)));
}

#[test]
fn a_stop_is_refused_only_at_the_ends_of_the_calendar() {
    let mut manager = AlarmManager::new();
    let at = |date: i32, seconds: u32| LocalDateTime {
        date,
        time: NaiveTime::new(seconds, 0).unwrap(),
        offset: 0,
    };
    assert!(manager.handle_command_at(AlarmCommand::StopAll, at(MAX_DATE, 0), 0).is_none());
    assert!(manager.handle_command_at(AlarmCommand::StopAll, at(MAX_DATE - 1, 86_399), 0).is_none());
    assert!(manager.handle_command_at(AlarmCommand::StopAll, at(MAX_DATE - 1, 86_398), 0).is_some());
    assert!(manager.handle_command_at(AlarmCommand::StopAll, at(MAX_DATE - 2, 0), 0).is_some());
    assert!(manager.handle_command_at(AlarmCommand::StopAll, at(MIN_DATE, 0), 0).is_none());
    assert!(manager.handle_command_at(AlarmCommand::StopAll, at(MIN_DATE, 86_397), 0).is_some());
    assert!(manager.handle_command_at(AlarmCommand::List, at(MAX_DATE, 0), 0).is_some());
    let stop = Event::Command(AlarmCommand::StopAll);
    assert_eq!(manager.run_step_at(stop, at(MAX_DATE, 0), 0), Effect::EndOfCalendar);
    let stop = Event::Command(AlarmCommand::StopAll);
    assert!(matches!(manager.run_step_at(stop, at(738_886, 0), 0), Effect::Handled(_)));
}

#[test]
fn a_ring_of_an_alarm_that_still_rings_cuts_the_older_one_off() {
    let mut manager = AlarmManager::new();
    let now = Local::now();
    add(&mut manager, alarm_at(1, now));
    let first = fire(&mut manager);
    assert!(first.stopped.is_empty());
    let again = fire(&mut manager);
    assert_eq!(again.stopped, vec![1]);
    assert_eq!(again.ring.unwrap().id, 1);
    assert_eq!(ringing_ids(&mut manager), vec![1]);
    assert_eq!(give(&mut manager, AlarmCommand::StopAll).stopped, vec![1]);
}

#[test]
fn the_mute_goes_by_the_clock_of_the_manager() {
    let mut manager = AlarmManager::new();
    let start = manager.mute_status().clock().start;
    give(&mut manager, AlarmCommand::Pause(3_600_000 * MILLI));
    assert!(manager.mute_status().is_muted());
    assert!(manager.mute_status().clock().start == start);
}

#[test]
fn an_alarm_that_comes_due_during_a_pause_rings_muted() {
    let mut manager = AlarmManager::new();
    add(&mut manager, alarm_at(1, Local::now()));
    manager.handle_command_at(AlarmCommand::Pause(10 * MILLI), moment(Local::now()), 5 * MILLI);
    assert_eq!(fire(&mut manager).ring.unwrap().id, 1);
    assert_eq!(ringing_ids(&mut manager), vec![1]);
    let mute = manager.mute_status();
    assert!(mute.is_muted_at(15 * MILLI - 1));
    assert!(!mute.is_muted_at(15 * MILLI));
}
