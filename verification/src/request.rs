//! The requests that arrive on the command topic, and what is done about each.

use crate::alarm::Alarm;
use crate::calendar::{NaiveTime, Weekday};
use crate::handle::AlarmHandle;
use crate::machine::was_drawn;
use crate::manager::AlarmCommand;
use crate::mute::MAX_SPAN_NANOS;
use vstd::prelude::*;

verus! {

/// The topic on which requests arrive.
pub const COMMAND_TOPIC: &'static str = "eager-alarm/pi/command";

/// The topic of the answers to `list`.
pub const ALARMS_TOPIC: &'static str = "eager-alarm/pi/alarms";

/// The topic of the answers to `status`.
pub const STATUS_TOPIC: &'static str = "eager-alarm/pi/status";

/// The topic of the answers to `ringing_status`.
pub const RINGING_STATUS_TOPIC: &'static str = "eager-alarm/pi/ringing_status";

/// A request.
#[derive(Debug, PartialEq, Eq)]
pub enum AlarmRequest {
    Add {
        time: NaiveTime,
        days_of_week: Vec<Weekday>,
        is_enabled: bool,
        stop_method_id: Option<String>,
    },
    Edit {
        id: u128,
        time: NaiveTime,
        days_of_week: Vec<Weekday>,
        is_enabled: bool,
        stop_method_id: Option<String>,
    },
    Delete { id: u128 },
    List,
    /// Asks which alarms are ringing.
    RingingStatus,
    Pause { duration_ms: u64 },
    Stop,
    /// Asks whether the device is there.
    Status,
}

impl AlarmRequest {
    pub open spec fn wf(self) -> bool {
        match self {
            AlarmRequest::Add { time, .. } => time.wf(),
            AlarmRequest::Edit { time, .. } => time.wf(),
            _ => true,
        }
    }
}

/// The answer to `status`.
#[derive(Clone, Copy, Debug, PartialEq, Eq, Structural)]
pub struct StatusReply {
    pub online: bool,
}

/// The topic that an answer goes to.
#[derive(Clone, Copy, Debug, PartialEq, Eq, Structural)]
pub enum ReplyTopic {
    Alarms,
    Status,
    RingingStatus,
}

/// What is done about a request.
#[derive(Debug, PartialEq, Eq)]
pub enum RequestAction {
    /// Give the manager the command.
    Tell(AlarmCommand),
    /// Give the manager the command, and publish its answer on the topic.
    Ask(AlarmCommand, ReplyTopic),
    /// Publish the status on the topic.
    Publish(StatusReply, ReplyTopic),
}

/// Whether an alarm is switched on where the request does not say.
pub fn default_true() -> (r: bool)
    ensures
        r == true,
{
    true
}

impl ReplyTopic {
    /// The name of the topic.
    pub open spec fn spec_name(self) -> Seq<char> {
        match self {
            ReplyTopic::Alarms => ALARMS_TOPIC@,
            ReplyTopic::Status => STATUS_TOPIC@,
            ReplyTopic::RingingStatus => RINGING_STATUS_TOPIC@,
        }
    }

    /// The name of the topic.
    pub fn name(&self) -> (r: &'static str)
        ensures
            r@ == self.spec_name(),
    {
        match self {
            ReplyTopic::Alarms => ALARMS_TOPIC,
            ReplyTopic::Status => STATUS_TOPIC,
            ReplyTopic::RingingStatus => RINGING_STATUS_TOPIC,
        }
    }
}

/// What is done about `request`, where a new alarm gets the ID `new_id`.
pub open spec fn action_for(request: AlarmRequest, new_id: u128) -> RequestAction {
    match request {
        AlarmRequest::Add { time, days_of_week, is_enabled, stop_method_id } =>
            RequestAction::Tell(
            AlarmCommand::Add(
                Alarm { id: new_id, time, days_of_week, is_enabled, stop_method_id },
            ),
        ),
        AlarmRequest::Edit { id, time, days_of_week, is_enabled, stop_method_id } =>
            RequestAction::Tell(
            AlarmCommand::Edit(Alarm { id, time, days_of_week, is_enabled, stop_method_id }),
        ),
        AlarmRequest::Delete { id } => RequestAction::Tell(AlarmCommand::Delete(id)),
        AlarmRequest::List => RequestAction::Ask(AlarmCommand::List, ReplyTopic::Alarms),
        AlarmRequest::RingingStatus => RequestAction::Ask(
            AlarmCommand::RingingStatus,
            ReplyTopic::RingingStatus,
        ),
        AlarmRequest::Pause { duration_ms } => RequestAction::Tell(
            AlarmCommand::Pause((duration_ms * 1_000_000) as u128),
        ),
        AlarmRequest::Stop => RequestAction::Tell(AlarmCommand::StopAll),
        AlarmRequest::Status => RequestAction::Publish(
            StatusReply { online: true },
            ReplyTopic::Status,
        ),
    }
}

/// The command that an action gives the manager, if it gives one.
pub open spec fn command_of(action: RequestAction) -> Option<AlarmCommand> {
    match action {
        RequestAction::Tell(cmd) => Some(cmd),
        RequestAction::Ask(cmd, _) => Some(cmd),
        RequestAction::Publish(_, _) => None,
    }
}

/// `id` has the version and the variant of a random UUID.
pub open spec fn is_random_uuid(id: u128) -> bool {
    (id >> 76) & 0xf == 4 && (id >> 62) & 0x3 == 2
}

/// What to do about a request, where a new alarm gets the ID `new_id`. An edit replaces the
/// whole alarm.
pub fn request_action(request: AlarmRequest, new_id: u128) -> (r: RequestAction)
    requires
        request.wf(),
    ensures
        r == action_for(request, new_id),
        command_of(r) matches Some(cmd) ==> cmd.wf(),
{
    let handle = AlarmHandle;
    match request {
        AlarmRequest::Add { time, days_of_week, is_enabled, stop_method_id } => {
            let alarm = Alarm { id: new_id, time, days_of_week, is_enabled, stop_method_id };
            RequestAction::Tell(handle.add_alarm(alarm).1)
        },
        AlarmRequest::Edit { id, time, days_of_week, is_enabled, stop_method_id } => {
            let alarm = Alarm { id, time, days_of_week, is_enabled, stop_method_id };
            RequestAction::Tell(handle.edit_alarm(alarm))
        },
        AlarmRequest::Delete { id } => RequestAction::Tell(handle.delete_alarm(id)),
        AlarmRequest::List => RequestAction::Ask(AlarmCommand::List, ReplyTopic::Alarms),
        AlarmRequest::RingingStatus => RequestAction::Ask(
            AlarmCommand::RingingStatus,
            ReplyTopic::RingingStatus,
        ),
        AlarmRequest::Pause { duration_ms } => {
            let span: u128 = duration_ms as u128 * 1_000_000;
            assert(span <= MAX_SPAN_NANOS);
            RequestAction::Tell(handle.pause(span))
        },
        AlarmRequest::Stop => RequestAction::Tell(handle.stop_all()),
        AlarmRequest::Status => RequestAction::Publish(
            StatusReply { online: true },
            ReplyTopic::Status,
        ),
    }
}

/// `action` is what is done about `request`, where a new alarm gets an ID that was drawn as a
/// random UUID.
pub open spec fn is_handled_as(request: AlarmRequest, action: RequestAction) -> bool {
    exists|new_id: u128| #[trigger]
        was_drawn(new_id) && is_random_uuid(new_id) && action == action_for(request, new_id)
}

/// What to do about a request. A new alarm gets a random UUID.
pub fn handle_request(request: AlarmRequest) -> (r: RequestAction)
    requires
        request.wf(),
    ensures
        is_handled_as(request, r),
        command_of(r) matches Some(cmd) ==> cmd.wf(),
{
    let new_id: u128 = random_uuid();
    request_action(request, new_id)
}

/// Calls `Uuid::new_v4` and `Uuid::as_u128`. Claims that the result was drawn, and that the bits
/// which mark a random UUID are set as they should be. The other bits are left to chance.
#[verifier::external_body]
fn random_uuid() -> (r: u128)
    ensures
        was_drawn(r),
        is_random_uuid(r),
{
    uuid::Uuid::new_v4().as_u128()
}

} // verus!
