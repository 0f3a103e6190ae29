use vstd::prelude::*;

use crate::bytes::bytes_equal;
use crate::model::components::topic_name::TopicNameModel;
use crate::model::packets::publish::Publish;
use crate::text::utf8_text;

verus! {

/// The first level of the topic on which new incidents are published: "new-incident".
pub open spec fn new_incident_level() -> Seq<u8> {
    seq![0x6Eu8, 0x65u8, 0x77u8, 0x2Du8, 0x69u8, 0x6Eu8, 0x63u8, 0x69u8, 0x64u8, 0x65u8, 0x6Eu8, 0x74u8]
}

/// The first level of the topics on which drones announce the incident they attend:
/// "attending-incident".
pub open spec fn attending_incident_level() -> Seq<u8> {
    seq![
        0x61u8, 0x74u8, 0x74u8, 0x65u8, 0x6Eu8, 0x64u8, 0x69u8, 0x6Eu8, 0x67u8, 0x2Du8,
        0x69u8, 0x6Eu8, 0x63u8, 0x69u8, 0x64u8, 0x65u8, 0x6Eu8, 0x74u8,
    ]
}

/// The first level of the topics on which incidents are closed: "close-incident".
pub open spec fn close_incident_level() -> Seq<u8> {
    seq![0x63u8, 0x6Cu8, 0x6Fu8, 0x73u8, 0x65u8, 0x2Du8, 0x69u8, 0x6Eu8, 0x63u8, 0x69u8, 0x64u8, 0x65u8, 0x6Eu8, 0x74u8]
}

/// The bytes of "new-incident".
pub fn new_incident_level_bytes() -> (bytes: Vec<u8>)
    ensures
        bytes@ == new_incident_level(),
{
    let bytes = vec![0x6Eu8, 0x65u8, 0x77u8, 0x2Du8, 0x69u8, 0x6Eu8, 0x63u8, 0x69u8, 0x64u8, 0x65u8, 0x6Eu8, 0x74u8];
    assert(bytes@ =~= new_incident_level());
    bytes
}

/// The bytes of "attending-incident".
pub fn attending_incident_level_bytes() -> (bytes: Vec<u8>)
    ensures
        bytes@ == attending_incident_level(),
{
    let bytes = vec![
        0x61u8, 0x74u8, 0x74u8, 0x65u8, 0x6Eu8, 0x64u8, 0x69u8, 0x6Eu8, 0x67u8, 0x2Du8,
        0x69u8, 0x6Eu8, 0x63u8, 0x69u8, 0x64u8, 0x65u8, 0x6Eu8, 0x74u8,
    ];
    assert(bytes@ =~= attending_incident_level());
    bytes
}

/// The bytes of "close-incident".
pub fn close_incident_level_bytes() -> (bytes: Vec<u8>)
    ensures
        bytes@ == close_incident_level(),
{
    let bytes = vec![0x63u8, 0x6Cu8, 0x6Fu8, 0x73u8, 0x65u8, 0x2Du8, 0x69u8, 0x6Eu8, 0x63u8, 0x69u8, 0x64u8, 0x65u8, 0x6Eu8, 0x74u8];
    assert(bytes@ =~= close_incident_level());
    bytes
}

/// What a message received by a drone asks of it.
#[derive(Debug, PartialEq)]
pub enum DroneEvent {
    /// A new incident was published; the text describes it.
    NewIncident(String),
    /// A drone attends the incident with this identifier.
    AttendingIncident(String),
    /// The incident with this identifier is closed.
    CloseIncident(String),
    /// The message concerns no drone.
    Ignored,
}

/// The value of a [`DroneEvent`].
pub enum DroneEventModel {
    NewIncident(Seq<char>),
    AttendingIncident(Seq<char>),
    CloseIncident(Seq<char>),
    Ignored,
}

impl View for DroneEvent {
    type V = DroneEventModel;

    open spec fn view(&self) -> DroneEventModel {
        match self {
            DroneEvent::NewIncident(text) => DroneEventModel::NewIncident(text@),
            DroneEvent::AttendingIncident(uuid) => DroneEventModel::AttendingIncident(uuid@),
            DroneEvent::CloseIncident(uuid) => DroneEventModel::CloseIncident(uuid@),
            DroneEvent::Ignored => DroneEventModel::Ignored,
        }
    }
}

/// What a drone makes of a message published on `topic`: a message that is not UTF-8, or on a
/// topic without levels, is ignored. On "new-incident" the message describes a new incident;
/// on "attending-incident/<uuid>" and "close-incident/<uuid>" the second level, when there is
/// one and it is UTF-8, identifies the incident that a drone attends or that is closed. Any
/// other message is ignored.
pub open spec fn drone_event(topic: TopicNameModel, message: Seq<u8>) -> DroneEventModel {
    if !vstd::utf8::valid_utf8(message) || topic.levels.len() == 0 {
        DroneEventModel::Ignored
    } else if topic.levels[0] == new_incident_level() {
        DroneEventModel::NewIncident(vstd::utf8::decode_utf8(message))
    } else if topic.levels[0] == attending_incident_level() || topic.levels[0] == close_incident_level() {
        if topic.levels.len() < 2 || !vstd::utf8::valid_utf8(topic.levels[1]) {
            DroneEventModel::Ignored
        } else if topic.levels[0] == attending_incident_level() {
            DroneEventModel::AttendingIncident(vstd::utf8::decode_utf8(topic.levels[1]))
        } else {
            DroneEventModel::CloseIncident(vstd::utf8::decode_utf8(topic.levels[1]))
        }
    } else {
        DroneEventModel::Ignored
    }
}

/// Handles the incoming publish packet: decides what it asks of the drone.
pub fn handle_publish(publish: &Publish) -> (event: DroneEvent)
    ensures
        event@ == drone_event(publish@.topic, publish@.message),
{
    let message = match utf8_text(publish.message().as_slice()) {
        Some(message) => message,
        None => {
            return DroneEvent::Ignored;
        },
    };
    let topic_levels = publish.topic().levels();
    if topic_levels.len() == 0 {
        return DroneEvent::Ignored;
    }
    let action = topic_levels[0].as_slice();
    let new_incident = new_incident_level_bytes();
    let attending_incident = attending_incident_level_bytes();
    let close_incident = close_incident_level_bytes();
    if bytes_equal(action, new_incident.as_slice()) {
        return DroneEvent::NewIncident(message);
    }
    let attending = bytes_equal(action, attending_incident.as_slice());
    let closing = bytes_equal(action, close_incident.as_slice());
    if !attending && !closing {
        return DroneEvent::Ignored;
    }
    if topic_levels.len() < 2 {
        return DroneEvent::Ignored;
    }
    let uuid = match utf8_text(topic_levels[1].as_slice()) {
        Some(uuid) => uuid,
        None => {
            return DroneEvent::Ignored;
        },
    };
    if attending {
        DroneEvent::AttendingIncident(uuid)
    } else {
        DroneEvent::CloseIncident(uuid)
    }
}

} // verus!
