//! The handle by which others give the alarm manager commands and take its answers.

use crate::alarm::Alarm;
use crate::manager::{AlarmCommand, CommandReply, RingingStatusReply};
use vstd::prelude::*;

verus! {

/// Says which command to send to the alarm manager, and what to make of the answer.
#[derive(Clone, Copy, Debug, PartialEq, Eq, Structural)]
pub struct AlarmHandle;

impl AlarmHandle {
    /// Adds an alarm. Returns its ID and the command to send.
    pub fn add_alarm(&self, alarm: Alarm) -> (r: (u128, AlarmCommand))
        ensures
            r == (alarm.id, AlarmCommand::Add(alarm)),
    {
        let id: u128 = alarm.id;
        (id, AlarmCommand::Add(alarm))
    }

    /// Puts an alarm in the place of the one that has its ID.
    pub fn edit_alarm(&self, alarm: Alarm) -> (r: AlarmCommand)
        ensures
            r == AlarmCommand::Edit(alarm),
    {
        AlarmCommand::Edit(alarm)
    }

    pub fn delete_alarm(&self, id: u128) -> (r: AlarmCommand)
        ensures
            r == AlarmCommand::Delete(id),
    {
        AlarmCommand::Delete(id)
    }

    /// The alarms that the manager answered `List` with. There are none where it did not
    /// answer.
    pub fn list_alarms(&self, answer: Option<CommandReply>) -> (r: Vec<Alarm>)
        ensures
            match answer {
                Some(CommandReply::Alarms(list)) => r == list,
                _ => r@ == Seq::<Alarm>::empty(),
            },
    {
        match answer {
            Some(CommandReply::Alarms(list)) => list,
            _ => Vec::new(),
        }
    }

    /// The alarms that the manager answered `RingingStatus` with. Nothing is ringing where it
    /// did not answer.
    pub fn get_ringing_status(&self, answer: Option<CommandReply>) -> (r: RingingStatusReply)
        ensures
            match answer {
                Some(CommandReply::Ringing(status)) => r == status,
                _ => !r.is_ringing && r.ringing_ids@ == Seq::<u128>::empty(),
            },
    {
        match answer {
            Some(CommandReply::Ringing(status)) => status,
            _ => RingingStatusReply { is_ringing: false, ringing_ids: Vec::new() },
        }
    }

    /// Mutes the output for so many nanoseconds.
    pub fn pause(&self, span: u128) -> (r: AlarmCommand)
        ensures
            r == AlarmCommand::Pause(span),
    {
        AlarmCommand::Pause(span)
    }

    pub fn stop_all(&self) -> (r: AlarmCommand)
        ensures
            r == AlarmCommand::StopAll,
    {
        AlarmCommand::StopAll
    }
}

} // verus!
