use eager_alarm_edge::alarm::Alarm;
use eager_alarm_edge::calendar::{NaiveTime, Weekday};
use eager_alarm_edge::manager::AlarmCommand;
use eager_alarm_edge::naive_time_hm;
use eager_alarm_edge::request::{
    default_true, handle_request, request_action, AlarmRequest, ReplyTopic, RequestAction,
    StatusReply, COMMAND_TOPIC,
};

fn time(seconds: u32, nanos: u32) -> NaiveTime {
    NaiveTime::new(seconds, nanos).unwrap()
}

#[test]
fn times_are_written_as_hours_and_minutes() {
    assert_eq!(naive_time_hm::serialize(&time(0, 0)), "00:00");
    assert_eq!(naive_time_hm::serialize(&time(27_059, 999)), "07:30");
    assert_eq!(naive_time_hm::serialize(&time(86_399, 1_500_000_000)), "23:59");
}

#[test]
fn times_are_read_back_to_the_minute() {
    for seconds in [0u32, 59, 60, 27_059, 43_200, 86_399] {
        let text = naive_time_hm::serialize(&time(seconds, 0));
        let read = naive_time_hm::deserialize(&text).unwrap();
        assert_eq!(read, time(seconds - seconds % 60, 0));
    }
    assert_eq!(naive_time_hm::deserialize("7:30").unwrap(), time(27_000, 0));
}

#[test]
fn texts_that_are_no_times_are_refused_with_the_reason() {
    let reason = |text: &str| naive_time_hm::deserialize(text).unwrap_err().message;
    assert_eq!(reason("24:00"), "input is out of range");
    assert_eq!(reason("12:60"), "input is out of range");
    assert_eq!(reason("07:30:00"), "trailing input");
    assert_eq!(reason("07"), "premature end of input");
    assert_eq!(reason("noon"), "input contains invalid characters");
}

fn description() -> (NaiveTime, Vec<Weekday>, bool, Option<String>) {
    (time(27_000, 0), vec![Weekday::Sat, Weekday::Sun], true, Some("geo:office".to_string()))
}

#[test]
fn an_add_request_adds_an_alarm_with_the_new_id() {
    let (time, days_of_week, is_enabled, stop_method_id) = description();
    let request = AlarmRequest::Add {
        time,
        days_of_week: days_of_week.clone(),
        is_enabled,
        stop_method_id: stop_method_id.clone(),
    };
    let expected = Alarm { id: 77, time, days_of_week, is_enabled, stop_method_id };
    assert_eq!(
        request_action(request, 77),
        RequestAction::Tell(AlarmCommand::Add(expected))
    );
}

#[test]
fn an_edit_request_replaces_the_alarm() {
    let (time, days_of_week, _, _) = description();
    let request = AlarmRequest::Edit {
        id: 5,
        time,
        days_of_week: days_of_week.clone(),
        is_enabled: false,
        stop_method_id: None,
    };
    let expected = Alarm { id: 5, time, days_of_week, is_enabled: false, stop_method_id: None };
    assert_eq!(
        request_action(request, 77),
        RequestAction::Tell(AlarmCommand::Edit(expected))
    );
}

#[test]
fn the_other_requests_have_their_commands_and_topics() {
    assert_eq!(
        request_action(AlarmRequest::Delete { id: 5 }, 77),
        RequestAction::Tell(AlarmCommand::Delete(5))
    );
    assert_eq!(
        request_action(AlarmRequest::List, 77),
        RequestAction::Ask(AlarmCommand::List, ReplyTopic::Alarms)
    );
    assert_eq!(
        request_action(AlarmRequest::RingingStatus, 77),
        RequestAction::Ask(AlarmCommand::RingingStatus, ReplyTopic::RingingStatus)
    );
    assert_eq!(
        request_action(AlarmRequest::Pause { duration_ms: 10_000 }, 77),
        RequestAction::Tell(AlarmCommand::Pause(10_000_000_000))
    );
    assert_eq!(
        request_action(AlarmRequest::Stop, 77),
        RequestAction::Tell(AlarmCommand::StopAll)
    );
    assert_eq!(
        request_action(AlarmRequest::Status, 77),
        RequestAction::Publish(StatusReply { online: true }, ReplyTopic::Status)
    );
    assert!(default_true());
}

#[test]
fn the_longest_pause_has_a_command() {
    assert_eq!(
        request_action(AlarmRequest::Pause { duration_ms: u64::MAX }, 77),
        RequestAction::Tell(AlarmCommand::Pause(18_446_744_073_709_551_615_000_000))
    );
}

#[test]
fn topics_have_their_names() {
    assert_eq!(COMMAND_TOPIC, "eager-alarm/pi/command");
    assert_eq!(ReplyTopic::Alarms.name(), "eager-alarm/pi/alarms");
    assert_eq!(ReplyTopic::Status.name(), "eager-alarm/pi/status");
    assert_eq!(ReplyTopic::RingingStatus.name(), "eager-alarm/pi/ringing_status");
}

#[test]
fn a_new_alarm_gets_a_random_uuid() {
    let fresh = || {
        let (time, days_of_week, is_enabled, stop_method_id) = description();
        let request = AlarmRequest::Add { time, days_of_week, is_enabled, stop_method_id };
        match handle_request(request) {
            RequestAction::Tell(AlarmCommand::Add(alarm)) => alarm.id,
            other => panic!("not an addition: {:?}", other),
        }
    };
    let one = fresh();
    let other = fresh();
    assert_ne!(one, other);
    for id in [one, other] {
        let uuid = uuid::Uuid::from_u128(id);
        assert_eq!(uuid.get_version_num(), 4);
        assert_eq!(uuid.get_variant(), uuid::Variant::RFC4122);
    }
}
