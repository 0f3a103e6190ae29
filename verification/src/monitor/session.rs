use vstd::prelude::*;

use crate::bytes::bytes_equal;
use crate::common::incident::{incident_data, Incident, IncidentModel};
use crate::drone::client::{
    attending_incident_level, attending_incident_level_bytes, close_incident_level, close_incident_level_bytes,
    new_incident_level, new_incident_level_bytes,
};
use crate::drone::incident::{ready_incident_level, ready_incident_level_bytes};
use crate::model::components::qos::QoS;
use crate::model::components::topic_name::{TopicName, TopicNameModel};
use crate::model::packet::{Packet, PacketModel};
use crate::model::packets::publish::{Publish, PublishModel};
use crate::monitor::channels_tasks::{DroneRegistration, IncidentEdit, IncidentRegistration};
use crate::monitor::client::{
    detected_description, detected_fields, detected_incident, detected_incident_readable, detected_name,
    drone_registration_publish, register_drone,
};
use crate::text::{lossy_string, utf8_lossy};

verus! {

/// The first level of the topics on which drones report their data: "drone-data".
pub open spec fn drone_data_level() -> Seq<u8> {
    seq![0x64u8, 0x72u8, 0x6Fu8, 0x6Eu8, 0x65u8, 0x2Du8, 0x64u8, 0x61u8, 0x74u8, 0x61u8]
}

/// The topic on which the camera system reports its cameras: "camera-data".
pub open spec fn camera_data_level() -> Seq<u8> {
    seq![0x63u8, 0x61u8, 0x6Du8, 0x65u8, 0x72u8, 0x61u8, 0x2Du8, 0x64u8, 0x61u8, 0x74u8, 0x61u8]
}

/// The first level of the topics on which cameras report what they detected:
/// "detected-incident".
pub open spec fn detected_incident_level() -> Seq<u8> {
    seq![
        0x64u8, 0x65u8, 0x74u8, 0x65u8, 0x63u8, 0x74u8, 0x65u8, 0x64u8, 0x2Du8,
        0x69u8, 0x6Eu8, 0x63u8, 0x69u8, 0x64u8, 0x65u8, 0x6Eu8, 0x74u8,
    ]
}

fn drone_data_level_bytes() -> (bytes: Vec<u8>)
    ensures
        bytes@ == drone_data_level(),
{
    let bytes = vec![0x64u8, 0x72u8, 0x6Fu8, 0x6Eu8, 0x65u8, 0x2Du8, 0x64u8, 0x61u8, 0x74u8, 0x61u8];
    assert(bytes@ =~= drone_data_level());
    bytes
}

fn camera_data_level_bytes() -> (bytes: Vec<u8>)
    ensures
        bytes@ == camera_data_level(),
{
    let bytes = vec![0x63u8, 0x61u8, 0x6Du8, 0x65u8, 0x72u8, 0x61u8, 0x2Du8, 0x64u8, 0x61u8, 0x74u8, 0x61u8];
    assert(bytes@ =~= camera_data_level());
    bytes
}

fn detected_incident_level_bytes() -> (bytes: Vec<u8>)
    ensures
        bytes@ == detected_incident_level(),
{
    let bytes = vec![
        0x64u8, 0x65u8, 0x74u8, 0x65u8, 0x63u8, 0x74u8, 0x65u8, 0x64u8, 0x2Du8,
        0x69u8, 0x6Eu8, 0x63u8, 0x69u8, 0x64u8, 0x65u8, 0x6Eu8, 0x74u8,
    ];
    assert(bytes@ =~= detected_incident_level());
    bytes
}

/// What the monitor keeps between two steps: the identifiers of the publishes that the server
/// has not acknowledged yet, and the identifier that the next publish gets.
#[derive(Debug)]
pub struct MonitorState {
    pub unacknowledged: Vec<u16>,
    pub publish_counter: u16,
}

/// The value of a [`MonitorState`].
pub struct MonitorStateModel {
    pub unacknowledged: Set<u16>,
    pub publish_counter: u16,
}

impl View for MonitorState {
    type V = MonitorStateModel;

    open spec fn view(&self) -> MonitorStateModel {
        MonitorStateModel {
            unacknowledged: Set::new(|id: u16| self.unacknowledged@.contains(id)),
            publish_counter: self.publish_counter,
        }
    }
}

impl MonitorState {
    /// A monitor that has sent nothing yet.
    pub fn new() -> (state: Self)
        ensures
            state@.unacknowledged == Set::<u16>::empty(),
            state@.publish_counter == 0,
    {
        let state = MonitorState { unacknowledged: Vec::new(), publish_counter: 0 };
        assert(state@.unacknowledged =~= Set::<u16>::empty());
        state
    }
}

/// What happens to the monitor: a packet comes from the server, the user asks for the
/// registration of a drone or of an incident (its identifier given, its position read), for
/// the edition of an incident or for its resolution, or the publish that the
/// monitor just made was written to the server or not.
#[derive(Debug)]
pub enum MonitorEvent {
    Received(Packet),
    RegisterDrone(DroneRegistration),
    RegisterIncident(Incident),
    EditIncident(IncidentEdit),
    ResolveIncident(String),
    Written { sent: bool },
}

/// The value of a [`MonitorEvent`].
pub enum MonitorEventModel {
    Received(PacketModel),
    RegisterDrone { id: Seq<char>, username: Seq<char>, password: Seq<char> },
    RegisterIncident(IncidentModel),
    EditIncident { uuid: Seq<char>, name: Seq<char>, description: Seq<char> },
    ResolveIncident(Seq<char>),
    Written { sent: bool },
}



impl View for MonitorEvent {
    type V = MonitorEventModel;

    open spec fn view(&self) -> MonitorEventModel {
        match self {
            MonitorEvent::Received(packet) => MonitorEventModel::Received(packet@),
            MonitorEvent::RegisterDrone(r) => MonitorEventModel::RegisterDrone {
                id: r.id@,
                username: r.username@,
                password: r.password@,
            },
            MonitorEvent::RegisterIncident(incident) => MonitorEventModel::RegisterIncident(incident@),
            MonitorEvent::EditIncident(edit) => MonitorEventModel::EditIncident {
                uuid: edit.uuid@,
                name: edit.name@,
                description: edit.description@,
            },
            MonitorEvent::ResolveIncident(uuid) => MonitorEventModel::ResolveIncident(uuid@),
            MonitorEvent::Written { sent } => MonitorEventModel::Written { sent: *sent },
        }
    }
}

/// What a step of the monitor asks for.
#[derive(Debug)]
pub enum MonitorCommand {
    /// Show the drone that reported this data.
    ShowDrone(Publish),
    /// Show the cameras of this report.
    ShowCameras(Publish),
    /// A drone attends the incident with this identifier.
    AttendIncident(String),
    /// The incident with this identifier can be resolved.
    ReadyIncident(String),
    /// Offer the registration of the incident that a camera detected.
    ShowDetectedIncident(IncidentRegistration),
    /// Add this incident to those the monitor follows, and show it.
    AddIncident(Incident),
    /// Give the incident with this identifier this name and description, and show it.
    EditIncident(IncidentEdit),
    /// Mark the incident with this identifier resolved, and show it.
    ResolveIncident(String),
    /// Write this publish to the server, then report whether it was written.
    Send(Publish),
    /// A publish came on a topic that the monitor does not follow.
    UnknownTopic,
    /// An acknowledgement came for no publish that waits for one.
    UnmatchedAcknowledgement,
}

/// The value of a [`MonitorCommand`].
pub enum MonitorCommandModel {
    ShowDrone(PublishModel),
    ShowCameras(PublishModel),
    AttendIncident(Seq<char>),
    ReadyIncident(Seq<char>),
    ShowDetectedIncident { name: Seq<char>, description: Seq<char>, x: Seq<char>, y: Seq<char> },
    AddIncident(IncidentModel),
    EditIncident { uuid: Seq<char>, name: Seq<char>, description: Seq<char> },
    ResolveIncident(Seq<char>),
    Send(PublishModel),
    UnknownTopic,
    UnmatchedAcknowledgement,
}

impl View for MonitorCommand {
    type V = MonitorCommandModel;

    open spec fn view(&self) -> MonitorCommandModel {
        match self {
            MonitorCommand::ShowDrone(p) => MonitorCommandModel::ShowDrone(p@),
            MonitorCommand::ShowCameras(p) => MonitorCommandModel::ShowCameras(p@),
            MonitorCommand::AttendIncident(id) => MonitorCommandModel::AttendIncident(id@),
            MonitorCommand::ReadyIncident(id) => MonitorCommandModel::ReadyIncident(id@),
            MonitorCommand::ShowDetectedIncident(r) => MonitorCommandModel::ShowDetectedIncident {
                name: r.name@,
                description: r.description@,
                x: r.x@,
                y: r.y@,
            },
            MonitorCommand::AddIncident(incident) => MonitorCommandModel::AddIncident(incident@),
            MonitorCommand::EditIncident(edit) => MonitorCommandModel::EditIncident {
                uuid: edit.uuid@,
                name: edit.name@,
                description: edit.description@,
            },
            MonitorCommand::ResolveIncident(id) => MonitorCommandModel::ResolveIncident(id@),
            MonitorCommand::Send(p) => MonitorCommandModel::Send(p@),
            MonitorCommand::UnknownTopic => MonitorCommandModel::UnknownTopic,
            MonitorCommand::UnmatchedAcknowledgement => MonitorCommandModel::UnmatchedAcknowledgement,
        }
    }
}

/// The values of commands.
pub open spec fn monitor_commands_view(commands: Seq<MonitorCommand>) -> Seq<MonitorCommandModel> {
    commands.map_values(|c: MonitorCommand| c@)
}

/// The publish that closes an incident: on "close-incident/<uuid>", at least once, not
/// retained, empty.
pub open spec fn close_incident_publish(uuid: Seq<char>, package_identifier: u16) -> PublishModel {
    PublishModel {
        dup: false,
        qos: QoS::AtLeast,
        retain: false,
        topic: TopicNameModel {
            levels: seq![close_incident_level(), vstd::utf8::encode_utf8(uuid)],
            server_reserved: false,
        },
        package_identifier: Some(package_identifier),
        message: Seq::<u8>::empty(),
    }
}

/// The publish that announces a new incident: on "new-incident", at least once, retained,
/// carrying the data of the incident.
pub open spec fn new_incident_publish(i: IncidentModel, package_identifier: u16) -> PublishModel {
    PublishModel {
        dup: false,
        qos: QoS::AtLeast,
        retain: true,
        topic: TopicNameModel { levels: seq![new_incident_level()], server_reserved: false },
        package_identifier: Some(package_identifier),
        message: vstd::utf8::encode_utf8(
            incident_data(i.uuid, i.name, i.description, i.x_coordinate, i.y_coordinate, i.status),
        ),
    }
}

/// Whether the monitor can read a publish: its topic has a first level, and a second one
/// where the first says that the topic is about an incident; what a camera detected carries a
/// position and a label.
pub open spec fn monitor_publish_readable(p: PublishModel) -> bool {
    let levels = p.topic.levels;
    &&& levels.len() >= 1
    &&& (levels[0] == attending_incident_level() || levels[0] == ready_incident_level()) ==> levels.len() >= 2
    &&& levels[0] == detected_incident_level() ==> detected_incident_readable(p.topic, p.message)
}

/// What the monitor makes of a publish from the server, by the first level of its topic.
pub open spec fn monitor_dispatch(p: PublishModel) -> MonitorCommandModel {
    let levels = p.topic.levels;
    if levels[0] == drone_data_level() {
        MonitorCommandModel::ShowDrone(p)
    } else if levels[0] == camera_data_level() {
        MonitorCommandModel::ShowCameras(p)
    } else if levels[0] == attending_incident_level() {
        MonitorCommandModel::AttendIncident(utf8_lossy(levels[1]))
    } else if levels[0] == ready_incident_level() {
        MonitorCommandModel::ReadyIncident(utf8_lossy(levels[1]))
    } else if levels[0] == detected_incident_level() {
        let fields = detected_fields(p.message);
        MonitorCommandModel::ShowDetectedIncident {
            name: detected_name(fields[2]),
            description: detected_description(utf8_lossy(levels[1])),
            x: fields[0],
            y: fields[1],
        }
    } else {
        MonitorCommandModel::UnknownTopic
    }
}

/// Whether the monitor can take the event: a publish it can read, and room for the identifier
/// of one more publish after one was made.
pub open spec fn monitor_event_acceptable(s: MonitorStateModel, e: MonitorEventModel) -> bool {
    match e {
        MonitorEventModel::Received(PacketModel::Publish(p)) => monitor_publish_readable(p),
        MonitorEventModel::Written { .. } => s.publish_counter < u16::MAX,
        _ => true,
    }
}

/// One step of the monitor. An acknowledgement settles the publish that waits for it; a
/// publish is handed on by the first level of its topic; the registration of a drone or of an
/// incident and the resolution of an incident each make a publish under the next identifier,
/// the edition of an incident is handed on to the list of incidents; once a publish
/// was made, it waits for its acknowledgement if it was written, and the identifier moves on
/// either way. What the step gives: the next state and the commands, in order.
pub open spec fn monitor_transition(
    s: MonitorStateModel,
    e: MonitorEventModel,
) -> (MonitorStateModel, Seq<MonitorCommandModel>) {
    match e {
        MonitorEventModel::Received(PacketModel::Puback(id)) => if id is Some && s.unacknowledged.contains(
            id->0,
        ) {
            (
                MonitorStateModel { unacknowledged: s.unacknowledged.remove(id->0), ..s },
                Seq::<MonitorCommandModel>::empty(),
            )
        } else {
            (s, seq![MonitorCommandModel::UnmatchedAcknowledgement])
        },
        MonitorEventModel::Received(PacketModel::Publish(p)) => (s, seq![monitor_dispatch(p)]),
        MonitorEventModel::Received(_) => (s, Seq::<MonitorCommandModel>::empty()),
        MonitorEventModel::RegisterDrone { id, username, password } => (
            s,
            seq![MonitorCommandModel::Send(drone_registration_publish(id, username, password, s.publish_counter))],
        ),
        MonitorEventModel::RegisterIncident(i) => (
            s,
            seq![
                MonitorCommandModel::AddIncident(i),
                MonitorCommandModel::Send(new_incident_publish(i, s.publish_counter)),
            ],
        ),
        MonitorEventModel::EditIncident { uuid, name, description } => (
            s,
            seq![MonitorCommandModel::EditIncident { uuid, name, description }],
        ),
        MonitorEventModel::ResolveIncident(uuid) => (
            s,
            seq![
                MonitorCommandModel::ResolveIncident(uuid),
                MonitorCommandModel::Send(close_incident_publish(uuid, s.publish_counter)),
            ],
        ),
        MonitorEventModel::Written { sent } => (
            MonitorStateModel {
                unacknowledged: if sent { s.unacknowledged.insert(s.publish_counter) } else { s.unacknowledged },
                publish_counter: (s.publish_counter + 1) as u16,
            },
            Seq::<MonitorCommandModel>::empty(),
        ),
    }
}

/// A publish that was written waits for its acknowledgement, and its acknowledgement settles
/// it: after the monitor writes the publish under its next identifier and the server
/// acknowledges that identifier, nothing is reported, the identifier has moved on by one, and
/// the publishes that still wait are those that waited before, but that one.
pub proof fn lemma_written_publish_settled_by_ack(s: MonitorStateModel)
    requires
        s.publish_counter < u16::MAX,
    ensures
        ({
            let (written, first) = monitor_transition(s, MonitorEventModel::Written { sent: true });
            let (acked, second) = monitor_transition(
                written,
                MonitorEventModel::Received(PacketModel::Puback(Some(s.publish_counter))),
            );
            &&& written.unacknowledged.contains(s.publish_counter)
            &&& first.len() == 0
            &&& second.len() == 0
            &&& acked.publish_counter == s.publish_counter + 1
            &&& acked.unacknowledged == s.unacknowledged.remove(s.publish_counter)
        }),
{
    let (written, _) = monitor_transition(s, MonitorEventModel::Written { sent: true });
    assert(written.unacknowledged.remove(s.publish_counter) =~= s.unacknowledged.remove(s.publish_counter));
}

/// Whether the monitor can read the publish.
pub fn monitor_can_read(publish: &Publish) -> (readable: bool)
    ensures
        readable == monitor_publish_readable(publish@),
{
    let levels = publish.topic().levels();
    if levels.len() < 1 {
        return false;
    }
    let first = levels[0].as_slice();
    if bytes_equal(first, attending_incident_level_bytes().as_slice()) || bytes_equal(
        first,
        ready_incident_level_bytes().as_slice(),
    ) {
        return levels.len() >= 2;
    }
    if bytes_equal(first, detected_incident_level_bytes().as_slice()) {
        return crate::monitor::client::try_detected_incident(publish).is_some();
    }
    true
}

/// The command for a publish from the server.
fn dispatch(publish: Publish) -> (command: MonitorCommand)
    requires
        monitor_publish_readable(publish@),
    ensures
        command@ == monitor_dispatch(publish@),
{
    let levels = publish.topic().levels();
    let first = levels[0].as_slice();
    if bytes_equal(first, drone_data_level_bytes().as_slice()) {
        MonitorCommand::ShowDrone(publish)
    } else if bytes_equal(first, camera_data_level_bytes().as_slice()) {
        MonitorCommand::ShowCameras(publish)
    } else if bytes_equal(first, attending_incident_level_bytes().as_slice()) {
        MonitorCommand::AttendIncident(lossy_string(levels[1].as_slice()))
    } else if bytes_equal(first, ready_incident_level_bytes().as_slice()) {
        MonitorCommand::ReadyIncident(lossy_string(levels[1].as_slice()))
    } else if bytes_equal(first, detected_incident_level_bytes().as_slice()) {
        MonitorCommand::ShowDetectedIncident(detected_incident(&publish))
    } else {
        MonitorCommand::UnknownTopic
    }
}

/// The publish that closes the incident with this identifier.
fn close_incident(uuid: &String, package_identifier: u16) -> (publish: Publish)
    ensures
        publish@ == close_incident_publish(uuid@, package_identifier),
{
    let uuid_bytes = vstd::slice::slice_to_vec(uuid.as_str().as_bytes());
    let ghost level = close_incident_level();
    let topic = TopicName::new(vec![close_incident_level_bytes(), uuid_bytes], false);
    assert(topic@.levels =~= seq![level, vstd::utf8::encode_utf8(uuid@)]);
    let publish = Publish::new(false, QoS::AtLeast, false, topic, Some(package_identifier), Vec::new());
    assert(publish@.message =~= Seq::<u8>::empty());
    publish
}

/// The identifiers after one more is added are those before and the new one.
proof fn lemma_push_contains(s: Seq<u16>, a: u16)
    ensures
        forall|x: u16| #[trigger] s.push(a).contains(x) <==> (s.contains(x) || x == a),
{
    assert forall|x: u16| #[trigger] s.push(a).contains(x) <==> (s.contains(x) || x == a) by {
        if s.contains(x) {
            let k = choose|k: int| 0 <= k < s.len() && s[k] == x;
            assert(s.push(a)[k] == x);
        }
        if x == a {
            assert(s.push(a)[s.len() as int] == x);
        }
        if s.push(a).contains(x) {
            let k = choose|k: int| 0 <= k < s.len() + 1 && s.push(a)[k] == x;
            if k < s.len() {
                assert(s[k] == x);
            }
        }
    }
}

/// The publish that announces the incident.
fn new_incident(incident: &Incident, package_identifier: u16) -> (publish: Publish)
    ensures
        publish@ == new_incident_publish(incident@, package_identifier),
{
    let topic = TopicName::new(vec![new_incident_level_bytes()], false);
    assert(topic@.levels =~= seq![new_incident_level()]);
    let text = incident.to_string();
    let message = vstd::slice::slice_to_vec(text.as_str().as_bytes());
    Publish::new(false, QoS::AtLeast, true, topic, Some(package_identifier), message)
}

/// Whether the identifier is among those.
fn holds_id(ids: &Vec<u16>, id: u16) -> (found: bool)
    ensures
        found == ids@.contains(id),
{
    let mut i: usize = 0;
    while i < ids.len()
        invariant
            i <= ids.len(),
            forall|j: int| 0 <= j < i ==> ids@[j] != id,
        decreases ids.len() - i,
    {
        if ids[i] == id {
            return true;
        }
        i = i + 1;
    }
    false
}

/// The identifiers but this one.
fn without_id(ids: &Vec<u16>, id: u16) -> (rest: Vec<u16>)
    ensures
        forall|x: u16| rest@.contains(x) <==> (ids@.contains(x) && x != id),
{
    let mut rest: Vec<u16> = Vec::new();
    let mut i: usize = 0;
    while i < ids.len()
        invariant
            i <= ids.len(),
            forall|x: u16| rest@.contains(x) <==> (ids@.take(i as int).contains(x) && x != id),
        decreases ids.len() - i,
    {
        let ghost before = rest@;
        assert(ids@.take(i + 1) =~= ids@.take(i as int).push(ids@[i as int]));
        proof {
            lemma_push_contains(ids@.take(i as int), ids@[i as int]);
        }
        if ids[i] != id {
            rest.push(ids[i]);
            assert(rest@ =~= before.push(ids@[i as int]));
            proof {
                lemma_push_contains(before, ids@[i as int]);
            }
        }
        i = i + 1;
    }
    assert(ids@.take(i as int) =~= ids@);
    rest
}

/// One step of the monitor's loop: what it does on an event, with the commands it gives.
pub fn monitor_step(state: &mut MonitorState, event: MonitorEvent) -> (commands: Vec<MonitorCommand>)
    requires
        monitor_event_acceptable(old(state)@, event@),
    ensures
        (final(state)@, monitor_commands_view(commands@)) == monitor_transition(old(state)@, event@),
{
    let ghost e = event@;
    let mut commands: Vec<MonitorCommand> = Vec::new();
    match event {
        MonitorEvent::Received(packet) => match packet {
            Packet::Puback(puback) => {
                match puback.packet_identifier() {
                    Some(id) => {
                        if holds_id(&state.unacknowledged, id) {
                            state.unacknowledged = without_id(&state.unacknowledged, id);
                            assert(state@.unacknowledged =~= old(state)@.unacknowledged.remove(id));
                        } else {
                            commands.push(MonitorCommand::UnmatchedAcknowledgement);
                        }
                    },
                    None => {
                        commands.push(MonitorCommand::UnmatchedAcknowledgement);
                    },
                }
            },
            Packet::Publish(publish) => {
                commands.push(dispatch(publish));
            },
            _ => {},
        },
        MonitorEvent::RegisterDrone(registration) => {
            if let Some(publish) = register_drone(registration, state.publish_counter) {
                commands.push(MonitorCommand::Send(publish));
            }
        },
        MonitorEvent::RegisterIncident(incident) => {
            let publish = new_incident(&incident, state.publish_counter);
            commands.push(MonitorCommand::AddIncident(incident));
            commands.push(MonitorCommand::Send(publish));
        },
        MonitorEvent::EditIncident(edit) => {
            commands.push(MonitorCommand::EditIncident(edit));
        },
        MonitorEvent::ResolveIncident(uuid) => {
            let publish = close_incident(&uuid, state.publish_counter);
            commands.push(MonitorCommand::ResolveIncident(uuid));
            commands.push(MonitorCommand::Send(publish));
        },
        MonitorEvent::Written { sent } => {
            if sent && !holds_id(&state.unacknowledged, state.publish_counter) {
                let counter = state.publish_counter;
                let ghost before = state.unacknowledged@;
                state.unacknowledged.push(counter);
                proof {
                    lemma_push_contains(before, counter);
                }
            }
            assert(state@.unacknowledged =~= (if sent {
                old(state)@.unacknowledged.insert(old(state)@.publish_counter)
            } else {
                old(state)@.unacknowledged
            }));
            state.publish_counter = state.publish_counter + 1;
        },
    }
    assert(monitor_commands_view(commands@) =~= monitor_transition(old(state)@, e).1);
    commands
}

} // verus!
