use chrono::{Datelike, Local, Timelike};
use eager_alarm_edge::alarm::Alarm;
use eager_alarm_edge::calendar::{LocalDateTime, NaiveTime, Weekday};
use eager_alarm_edge::manager::{
    AlarmCommand, AlarmManager, CommandOutcome, Effect, Event, SaveJob, Wait,
};
use eager_alarm_edge::naive_time_hm;
use eager_alarm_edge::store::{
    default_alarms_file, load_state, save_state, LoadReport, PersistedState, SaveStep, StoreRead,
};
use serde_json::Value;
use uuid::Uuid;

const PATH: &str = "/var/lib/eager/alarms.json";

fn alarm_at(id: u128, at: chrono::DateTime<Local>) -> Alarm {
    let time = at.time();
    let day = Weekday::from_monday_index(at.weekday().num_days_from_monday()).unwrap();
    Alarm {
        id,
        time: NaiveTime::new(time.num_seconds_from_midnight(), time.nanosecond()).unwrap(),
        days_of_week: vec![day],
        is_enabled: true,
        stop_method_id: None,
    }
}

fn manager_with(state: PersistedState) -> (AlarmManager, Vec<Alarm>) {
    let restored = AlarmManager::with_store(PATH.as_bytes().to_vec(), state);
    (restored.manager, restored.resumed)
}

fn fresh_manager() -> AlarmManager {
    manager_with(load_state(StoreRead::Missing).state).0
}

fn give(manager: &mut AlarmManager, cmd: AlarmCommand) -> CommandOutcome {
    match manager.run_step(Event::Command(cmd)) {
        Effect::Handled(outcome) => outcome,
        other => panic!("not handled: {:?}", other),
    }
}

fn saved(save: Option<SaveJob>) -> PersistedState {
    let job = save.expect("alarms file should be written");
    assert_eq!(job.path, PATH.as_bytes());
    job.state
}

fn list(manager: &mut AlarmManager) -> Vec<Alarm> {
    let reply = give(manager, AlarmCommand::List).reply;
    manager.handle().list_alarms(Some(reply))
}

fn decoded_alarm(value: &Value) -> Option<Alarm> {
    let days: Vec<chrono::Weekday> = serde_json::from_value(value["days_of_week"].clone()).ok()?;
    let mut days_of_week: Vec<Weekday> = Vec::new();
    for day in days {
        days_of_week.push(Weekday::from_monday_index(day.num_days_from_monday())?);
    }
    Some(Alarm {
        id: Uuid::parse_str(value["id"].as_str()?).ok()?.as_u128(),
        time: naive_time_hm::deserialize(value["time"].as_str()?).ok()?,
        days_of_week,
        is_enabled: value["is_enabled"].as_bool()?,
        stop_method_id: value["stop_method_id"].as_str().map(|text| text.to_string()),
    })
}

/// A bare list of alarms.
fn decoded_list(bytes: &[u8]) -> Option<Vec<Alarm>> {
    let value: Value = serde_json::from_slice(bytes).ok()?;
    value.as_array()?.iter().map(decoded_alarm).collect()
}

/// The alarms and the IDs of those that were ringing.
fn decoded_state(bytes: &[u8]) -> Option<PersistedState> {
    let value: Value = serde_json::from_slice(bytes).ok()?;
    let alarms: Option<Vec<Alarm>> = value["alarms"].as_array()?.iter().map(decoded_alarm).collect();
    let mut ringing_ids: Vec<u128> = Vec::new();
    if let Some(ids) = value["ringing_ids"].as_array() {
        for id in ids {
            ringing_ids.push(Uuid::parse_str(id.as_str()?).ok()?.as_u128());
        }
    }
    Some(PersistedState { alarms: alarms?, ringing_ids })
}

/// What comes of reading a file with these contents.
fn read_of(bytes: &[u8]) -> StoreRead {
    StoreRead::Contents { state: decoded_state(bytes), legacy: decoded_list(bytes) }
}

#[test]
fn a_file_of_the_present_form_is_loaded() {
    let json = br#"{"alarms":[{"id":"00000000-0000-0000-0000-00000000000b","time":"07:30",
        "days_of_week":["Mon"],"is_enabled":true,"stop_method_id":"geo:office"}],
        "ringing_ids":["00000000-0000-0000-0000-00000000000b"]}"#;
    let loaded = load_state(read_of(json));
    assert_eq!(loaded.report, LoadReport::Fine);
    assert_eq!(loaded.state.ringing_ids, vec![11]);
    assert_eq!(loaded.state.alarms.len(), 1);
    assert_eq!(loaded.state.alarms[0].stop_method_id.as_deref(), Some("geo:office"));
}

#[test]
fn add_persists_to_file() {
    let mut manager = fresh_manager();
    let alarm = alarm_at(11, Local::now() + chrono::Duration::minutes(30));
    let (id, cmd) = manager.handle().add_alarm(alarm.clone());

    let state = saved(give(&mut manager, cmd).save);
    assert_eq!(state.alarms.len(), 1);
    assert_eq!(state.alarms[0].id, id);
    assert_eq!(state.alarms, vec![alarm]);
    assert!(state.ringing_ids.is_empty());
}

#[test]
fn edit_and_delete_update_file() {
    let mut manager = fresh_manager();
    let mut alarm = alarm_at(11, Local::now() + chrono::Duration::minutes(30));
    let (id, cmd) = manager.handle().add_alarm(alarm.clone());
    give(&mut manager, cmd);

    alarm.id = id;
    alarm.is_enabled = false;
    let cmd = manager.handle().edit_alarm(alarm);
    let state = saved(give(&mut manager, cmd).save);
    let listed = list(&mut manager);
    assert_eq!(listed.len(), 1);
    assert!(!listed[0].is_enabled);

    assert_eq!(state.alarms.len(), 1);
    assert!(!state.alarms[0].is_enabled);

    let cmd = manager.handle().delete_alarm(id);
    let state = saved(give(&mut manager, cmd).save);
    assert!(state.alarms.is_empty());
}

#[test]
fn restarted_manager_restores_alarms_from_file() {
    let mut manager = fresh_manager();
    let alarm = alarm_at(11, Local::now() + chrono::Duration::minutes(30));
    let (_, cmd) = manager.handle().add_alarm(alarm.clone());
    let state = saved(give(&mut manager, cmd).save);

    let (mut manager, resumed) = manager_with(state);
    let restored = list(&mut manager);
    assert_eq!(restored.len(), 1);
    assert_eq!(restored, vec![alarm]);
    assert!(resumed.is_empty());
    assert!(matches!(manager.next_wait(), Wait::Until(_)));
}

#[test]
fn missing_file_starts_empty() {
    let loaded = load_state(StoreRead::Missing);
    assert_eq!(loaded.report, LoadReport::Fine);
    let (mut manager, resumed) = manager_with(loaded.state);
    assert!(list(&mut manager).is_empty());
    assert!(resumed.is_empty());
}

#[test]
fn corrupt_file_starts_empty_instead_of_panicking() {
    let loaded = load_state(read_of(b"not valid json"));
    assert_eq!(loaded.report, LoadReport::Unparsable);
    let (mut manager, _) = manager_with(loaded.state);
    assert!(list(&mut manager).is_empty());
}

#[test]
fn unreadable_file_starts_empty_and_is_reported() {
    let loaded = load_state(StoreRead::Unreadable);
    assert_eq!(loaded.report, LoadReport::Unreadable);
    assert!(loaded.state.alarms.is_empty());
    assert!(loaded.state.ringing_ids.is_empty());
}

#[test]
fn stop_method_id_round_trips_through_persistence() {
    let mut manager = fresh_manager();
    let mut alarm = alarm_at(11, Local::now() + chrono::Duration::minutes(30));
    alarm.stop_method_id = Some("geo:office".to_string());
    let id = alarm.id;
    let (_, cmd) = manager.handle().add_alarm(alarm);

    let state = saved(give(&mut manager, cmd).save);
    let found = state.alarms.iter().find(|alarm| alarm.id == id).unwrap();
    assert_eq!(found.stop_method_id.as_deref(), Some("geo:office"));
}

#[test]
fn legacy_file_without_stop_method_id_loads_as_null() {
    let legacy_alarm_id = Uuid::new_v4();
    let legacy_json = format!(
        r#"[{{"id":"{legacy_alarm_id}","time":"07:30","days_of_week":["Mon"],"is_enabled":true}}]"#
    );
    let loaded = load_state(read_of(legacy_json.as_bytes()));
    assert_eq!(loaded.report, LoadReport::Fine);
    assert!(loaded.state.ringing_ids.is_empty());

    let (mut manager, _) = manager_with(loaded.state);
    let listed = list(&mut manager);
    assert_eq!(listed.len(), 1);
    assert_eq!(listed[0].stop_method_id, None);
    assert_eq!(listed[0].time, NaiveTime::new(27_000, 0).unwrap());
}

#[test]
fn ringing_alarm_is_persisted_and_resumes_after_restart() {
    let mut manager = fresh_manager();
    let alarm = alarm_at(11, Local::now());
    let (id, cmd) = manager.handle().add_alarm(alarm.clone());
    give(&mut manager, cmd);
    let state = match manager.run_step(Event::Deadline) {
        Effect::Fired(outcome) => {
            assert_eq!(outcome.ring, Some(alarm.clone()), "alarm should be ringing before shutdown");
            saved(outcome.save)
        }
        other => panic!("nothing rang: {:?}", other),
    };
    assert_eq!(state.ringing_ids, vec![id]);

    let (mut manager, resumed) = manager_with(state);
    assert_eq!(resumed, vec![alarm], "alarm should resume ringing immediately after restart");
    let reply = give(&mut manager, AlarmCommand::RingingStatus).reply;
    assert_eq!(manager.handle().get_ringing_status(Some(reply)).ringing_ids, vec![id]);
}

#[test]
fn a_stop_is_saved() {
    let (mut manager, _) = manager_with(PersistedState {
        alarms: vec![alarm_at(1, Local::now()), alarm_at(2, Local::now())],
        ringing_ids: vec![2],
    });
    let outcome = give(&mut manager, AlarmCommand::StopAll);
    assert_eq!(outcome.stopped, vec![2]);
    let state = saved(outcome.save);
    assert!(state.ringing_ids.is_empty());
    assert_eq!(state.alarms.len(), 2);
}

#[test]
fn questions_and_pauses_are_not_saved() {
    let mut manager = fresh_manager();
    assert_eq!(give(&mut manager, AlarmCommand::List).save, None);
    assert_eq!(give(&mut manager, AlarmCommand::RingingStatus).save, None);
    assert_eq!(give(&mut manager, AlarmCommand::Pause(5)).save, None);
}

#[test]
fn a_restart_drops_what_no_alarm_belongs_to_and_keeps_the_last_of_one_id() {
    let mut first = alarm_at(1, Local::now());
    first.stop_method_id = Some("first".to_string());
    let mut last = alarm_at(1, Local::now());
    last.stop_method_id = Some("last".to_string());
    let (mut manager, resumed) = manager_with(PersistedState {
        alarms: vec![first, last.clone()],
        ringing_ids: vec![9, 1, 1],
    });
    assert_eq!(list(&mut manager), vec![last.clone()]);
    assert_eq!(resumed, vec![last]);
}

#[test]
fn a_manager_restored_at_a_moment_waits_for_the_next_ring() {
    let monday = LocalDateTime {
        date: 738_886,
        time: NaiveTime::new(0, 0).unwrap(),
        offset: 0,
    };
    let mut off = alarm_at(1, Local::now());
    off.is_enabled = false;
    let state = PersistedState { alarms: vec![off], ringing_ids: Vec::new() };
    let mut restored = AlarmManager::with_store_at(PATH.as_bytes().to_vec(), state, monday);
    assert!(matches!(restored.manager.next_wait(), Wait::ForCommand));
}

fn bytes(text: &str) -> Vec<u8> {
    text.as_bytes().to_vec()
}

#[test]
fn a_save_writes_another_file_and_renames_it() {
    let replacement = vec![
        SaveStep::Encode,
        SaveStep::Write(bytes("/var/lib/alarms.json.tmp")),
        SaveStep::Rename(bytes("/var/lib/alarms.json.tmp"), bytes("/var/lib/alarms.json")),
    ];
    let path = bytes("/var/lib/alarms.json");
    assert_eq!(save_state(&path, None), replacement);
    assert_eq!(save_state(&path, Some(&Vec::new())), replacement);
    let steps = save_state(&path, Some(&bytes("/var/lib")));
    assert_eq!(steps[0], SaveStep::CreateDirectory(bytes("/var/lib")));
    assert_eq!(steps[1..], replacement[..]);
}

#[test]
fn the_default_file_lies_in_the_first_state_directory() {
    let home = bytes("/home/me/.local/state");
    let under = |list: &str| default_alarms_file(Some(&bytes(list)), Some(&home));
    assert_eq!(under("/var/lib/eager"), bytes("/var/lib/eager/alarms.json"));
    assert_eq!(under("::/var/lib/eager:/other"), bytes("/var/lib/eager/alarms.json"));
    assert_eq!(under("/var/lib/eager/"), bytes("/var/lib/eager/alarms.json"));
    let fallback = bytes("/home/me/.local/state/eager-alarm-edge/alarms.json");
    assert_eq!(under(""), fallback);
    assert_eq!(under("::"), fallback);
    assert_eq!(default_alarms_file(None, Some(&home)), fallback);
    assert_eq!(default_alarms_file(None, None), bytes("./eager-alarm-edge/alarms.json"));
}
