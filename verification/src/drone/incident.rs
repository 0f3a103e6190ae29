use vstd::prelude::*;

use crate::common::incident::{Incident, IncidentModel};
use crate::drone::client::{
    attending_incident_level, attending_incident_level_bytes, close_incident_level, close_incident_level_bytes,
};
use crate::drone::drone::{DroneState, DroneStatus, TravelLocation, DRONE_COUNT_PER_INCIDENT, MINIMUM_BATTERY_LEVEL};
use crate::model::components::qos::QoS;
use crate::model::components::topic_filter::{TopicFilter, TopicFilterModel};
use crate::model::components::topic_level::{TopicLevel, TopicLevelModel};
use crate::model::components::topic_name::{TopicName, TopicNameModel};
use crate::model::packet::{Packet, PacketModel};
use crate::model::packets::publish::{Publish, PublishModel};
use crate::model::packets::subscribe::{Subscribe, SubscribeModel};
use crate::model::packets::unsubscribe::{Unsubscribe, UnsubscribeModel};

verus! {

/// The seconds between two looks at how many drones attend the incident.
pub const WAIT_FOR_DRONE_INTERVAL: u64 = 1;

/// The seconds that attending an incident takes.
pub const DRONE_ATTENDING_DURATION: u64 = 10;

/// The first level of the topics on which drones announce that an incident is resolved:
/// "ready-incident".
pub open spec fn ready_incident_level() -> Seq<u8> {
    seq![0x72u8, 0x65u8, 0x61u8, 0x64u8, 0x79u8, 0x2Du8, 0x69u8, 0x6Eu8, 0x63u8, 0x69u8, 0x64u8, 0x65u8, 0x6Eu8, 0x74u8]
}

/// The bytes of "ready-incident".
pub fn ready_incident_level_bytes() -> (bytes: Vec<u8>)
    ensures
        bytes@ == ready_incident_level(),
{
    let bytes = vec![0x72u8, 0x65u8, 0x61u8, 0x64u8, 0x79u8, 0x2Du8, 0x69u8, 0x6Eu8, 0x63u8, 0x69u8, 0x64u8, 0x65u8, 0x6Eu8, 0x74u8];
    assert(bytes@ =~= ready_incident_level());
    bytes
}

/// Where a drone is in the work on an incident.
#[derive(Debug, PartialEq, Eq, Clone, Copy, Structural)]
pub enum IncidentPhase {
    /// The work has not begun.
    Start,
    /// Travelling to the incident.
    GoingToIncident,
    /// Interrupted, travelling back to the anchor.
    GoingBackToAnchor,
    /// At the incident, waiting for enough drones to attend it.
    WaitingForDrones,
    /// Attending the incident with the other drones.
    Attending,
    /// The work is over.
    Done,
}

/// The work of a drone on an incident: where it stands, and the identifier of the incident.
#[derive(Debug)]
pub struct IncidentWork {
    pub phase: IncidentPhase,
    pub uuid: String,
}

/// What happens to the work: time passes, or the travel it asked for ends, with the drone at
/// its anchor or not.
#[derive(Debug, PartialEq, Eq, Clone, Copy, Structural)]
pub enum IncidentEvent {
    Tick,
    Arrived { in_anchor: bool },
}

/// What the work on an incident asks for.
#[derive(Debug)]
pub enum DroneAction {
    /// Send the packet to the server.
    Send(Packet),
    /// Travel there (to the incident or to the anchor), then report the arrival.
    Travel(TravelLocation),
    /// Wait this many seconds.
    Sleep(u64),
    /// Drop the current incident from the drone's queue ([`IncidentQueue::remove_current_incident`]).
    DropIncident,
}

/// The value of a [`DroneAction`].
pub enum DroneActionModel {
    Send(PacketModel),
    Travel(TravelLocation),
    Sleep(u64),
    DropIncident,
}

impl View for DroneAction {
    type V = DroneActionModel;

    open spec fn view(&self) -> DroneActionModel {
        match self {
            DroneAction::Send(packet) => DroneActionModel::Send(packet@),
            DroneAction::Travel(location) => DroneActionModel::Travel(*location),
            DroneAction::Sleep(seconds) => DroneActionModel::Sleep(*seconds),
            DroneAction::DropIncident => DroneActionModel::DropIncident,
        }
    }
}

/// The values of actions.
pub open spec fn drone_actions_view(actions: Seq<DroneAction>) -> Seq<DroneActionModel> {
    actions.map_values(|a: DroneAction| a@)
}

/// The filter of the topic `level/uuid` about an incident.
pub open spec fn incident_filter(level: Seq<u8>, uuid: Seq<char>) -> TopicFilterModel {
    TopicFilterModel {
        levels: seq![TopicLevelModel::Literal(level), TopicLevelModel::Literal(vstd::utf8::encode_utf8(uuid))],
        server_reserved: false,
    }
}

/// The topic `level/uuid` about an incident.
pub open spec fn incident_topic(level: Seq<u8>, uuid: Seq<char>) -> TopicNameModel {
    TopicNameModel { levels: seq![level, vstd::utf8::encode_utf8(uuid)], server_reserved: false }
}

/// The subscription of a drone to a filter: packet identifier 1, at most once.
pub open spec fn drone_subscription(f: TopicFilterModel) -> PacketModel {
    PacketModel::Subscribe(SubscribeModel { packet_identifier: 1, topics: seq![(f, QoS::AtMost)] })
}

/// The unsubscription of a drone from a filter: packet identifier 1.
pub open spec fn drone_unsubscription(f: TopicFilterModel) -> PacketModel {
    PacketModel::Unsubscribe(UnsubscribeModel { packet_identifier: 1, topics: seq![f] })
}

/// An empty announcement of a drone on a topic: at most once, retained, without identifier.
pub open spec fn drone_announcement(t: TopicNameModel) -> PacketModel {
    PacketModel::Publish(
        PublishModel {
            dup: false,
            qos: QoS::AtMost,
            retain: true,
            topic: t,
            package_identifier: None,
            message: Seq::<u8>::empty(),
        },
    )
}

/// One step of the work of a drone on an incident. It follows who attends the incident and
/// travels there; once there, an interrupted drone drops the incident and goes back to its
/// anchor, where it is free again. Otherwise it attends the incident, says so, and waits until
/// enough drones attend it; then it follows the closing of the incident, stops following who
/// attends it, attends it for a while, and says that it is resolved. What the step gives: the
/// next phase, the drone, and the actions, in order.
pub open spec fn incident_transition(
    phase: IncidentPhase,
    uuid: Seq<char>,
    drone: DroneState,
    event: IncidentEvent,
) -> (IncidentPhase, DroneState, Seq<DroneActionModel>) {
    match (phase, event) {
        (IncidentPhase::Start, _) => (
            IncidentPhase::GoingToIncident,
            drone,
            seq![
                DroneActionModel::Send(drone_subscription(incident_filter(attending_incident_level(), uuid))),
                DroneActionModel::Travel(TravelLocation::Incident),
            ],
        ),
        (IncidentPhase::GoingToIncident, IncidentEvent::Arrived { .. }) => if drone.status == DroneStatus::Interrupted {
            (
                IncidentPhase::GoingBackToAnchor,
                DroneState { current_incident_count: 0, ..drone },
                seq![DroneActionModel::DropIncident, DroneActionModel::Travel(TravelLocation::Anchor)],
            )
        } else {
            (
                IncidentPhase::WaitingForDrones,
                DroneState { status: DroneStatus::AttendingIncident, ..drone },
                seq![DroneActionModel::Send(drone_announcement(incident_topic(attending_incident_level(), uuid)))],
            )
        },
        (IncidentPhase::GoingBackToAnchor, IncidentEvent::Arrived { in_anchor }) => (
            IncidentPhase::Done,
            if in_anchor { DroneState { status: DroneStatus::Free, ..drone } } else { drone },
            Seq::<DroneActionModel>::empty(),
        ),
        (IncidentPhase::WaitingForDrones, IncidentEvent::Tick) => if drone.current_incident_count >= DRONE_COUNT_PER_INCIDENT {
            (
                IncidentPhase::Attending,
                drone,
                seq![
                    DroneActionModel::Send(drone_subscription(incident_filter(close_incident_level(), uuid))),
                    DroneActionModel::Send(drone_unsubscription(incident_filter(attending_incident_level(), uuid))),
                    DroneActionModel::Sleep(DRONE_ATTENDING_DURATION),
                ],
            )
        } else {
            (IncidentPhase::WaitingForDrones, drone, seq![DroneActionModel::Sleep(WAIT_FOR_DRONE_INTERVAL)])
        },
        (IncidentPhase::Attending, IncidentEvent::Tick) => (
            IncidentPhase::Done,
            drone,
            seq![DroneActionModel::Send(drone_announcement(incident_topic(ready_incident_level(), uuid)))],
        ),
        _ => (phase, drone, Seq::<DroneActionModel>::empty()),
    }
}

/// The bytes of the identifier of an incident.
fn uuid_bytes(uuid: &String) -> (bytes: Vec<u8>)
    ensures
        bytes@ == vstd::utf8::encode_utf8(uuid@),
{
    vstd::slice::slice_to_vec(uuid.as_str().as_bytes())
}

/// The filter of the topic `level/uuid`.
fn filter_about(level: Vec<u8>, uuid: &String) -> (f: TopicFilter)
    ensures
        f@ == incident_filter(level@, uuid@),
{
    let levels = vec![TopicLevel::Literal(level), TopicLevel::Literal(uuid_bytes(uuid))];
    let f = TopicFilter::new(levels, false);
    assert(f@.levels =~= incident_filter(level@, uuid@).levels);
    f
}

/// The subscription to the topic `level/uuid`.
fn subscription_to(level: Vec<u8>, uuid: &String) -> (packet: Packet)
    ensures
        packet@ == drone_subscription(incident_filter(level@, uuid@)),
{
    let packet = Subscribe::new(1, vec![(filter_about(level, uuid), QoS::AtMost)]);
    assert(packet@.topics =~= seq![(incident_filter(level@, uuid@), QoS::AtMost)]);
    Packet::Subscribe(packet)
}

/// The empty announcement on the topic `level/uuid`.
fn announcement_on(level: Vec<u8>, uuid: &String) -> (packet: Packet)
    ensures
        packet@ == drone_announcement(incident_topic(level@, uuid@)),
{
    let ghost level_seq = level@;
    let topic = TopicName::new(vec![level, uuid_bytes(uuid)], false);
    assert(topic@.levels =~= incident_topic(level_seq, uuid@).levels);
    let publish = Publish::new(false, QoS::AtMost, true, topic, None, Vec::new());
    assert(publish@.message =~= Seq::<u8>::empty());
    Packet::Publish(publish)
}

/// Handles the incident: one step of the drone's work on it.
pub fn handle_incident(work: &mut IncidentWork, drone: &mut DroneState, event: IncidentEvent) -> (actions: Vec<DroneAction>)
    ensures
        final(work).uuid@ == old(work).uuid@,
        (final(work).phase, *final(drone), drone_actions_view(actions@)) == incident_transition(
            old(work).phase,
            old(work).uuid@,
            *old(drone),
            event,
        ),
{
    let mut actions: Vec<DroneAction> = Vec::new();
    match (work.phase, event) {
        (IncidentPhase::Start, _) => {
            actions.push(DroneAction::Send(subscription_to(attending_incident_level_bytes(), &work.uuid)));
            actions.push(DroneAction::Travel(TravelLocation::Incident));
            work.phase = IncidentPhase::GoingToIncident;
        },
        (IncidentPhase::GoingToIncident, IncidentEvent::Arrived { .. }) => {
            if drone.is_interrupted() {
                drone.current_incident_count = 0;
                actions.push(DroneAction::DropIncident);
                actions.push(DroneAction::Travel(TravelLocation::Anchor));
                work.phase = IncidentPhase::GoingBackToAnchor;
            } else {
                drone.set_status(DroneStatus::AttendingIncident);
                actions.push(DroneAction::Send(announcement_on(attending_incident_level_bytes(), &work.uuid)));
                work.phase = IncidentPhase::WaitingForDrones;
            }
        },
        (IncidentPhase::GoingBackToAnchor, IncidentEvent::Arrived { in_anchor }) => {
            if in_anchor {
                drone.set_status(DroneStatus::Free);
            }
            work.phase = IncidentPhase::Done;
        },
        (IncidentPhase::WaitingForDrones, IncidentEvent::Tick) => {
            if drone.current_incident_count >= DRONE_COUNT_PER_INCIDENT {
                actions.push(DroneAction::Send(subscription_to(close_incident_level_bytes(), &work.uuid)));
                let unsubscribe = Unsubscribe::new(1, vec![filter_about(attending_incident_level_bytes(), &work.uuid)]);
                assert(unsubscribe@.topics =~= seq![incident_filter(attending_incident_level(), work.uuid@)]);
                actions.push(DroneAction::Send(Packet::Unsubscribe(unsubscribe)));
                actions.push(DroneAction::Sleep(DRONE_ATTENDING_DURATION));
                work.phase = IncidentPhase::Attending;
            } else {
                actions.push(DroneAction::Sleep(WAIT_FOR_DRONE_INTERVAL));
            }
        },
        (IncidentPhase::Attending, IncidentEvent::Tick) => {
            actions.push(DroneAction::Send(announcement_on(ready_incident_level_bytes(), &work.uuid)));
            work.phase = IncidentPhase::Done;
        },
        _ => {},
    }
    assert(drone_actions_view(actions@) =~= incident_transition(old(work).phase, old(work).uuid@, *old(drone), event).2);
    actions
}

/// What the closing of an incident does: when it is the incident the drone works on, the drone
/// drops it (and with it the count of drones attending it), stops following its closing, and
/// travels back to its anchor; any other closing changes nothing.
pub open spec fn close_incident_transition(
    drone: DroneState,
    closing: Seq<char>,
    current: Option<Seq<char>>,
) -> (DroneState, Seq<DroneActionModel>) {
    if current == Some(closing) {
        (
            DroneState { current_incident_count: 0, ..drone },
            seq![
                DroneActionModel::DropIncident,
                DroneActionModel::Send(drone_unsubscription(incident_filter(close_incident_level(), closing))),
                DroneActionModel::Travel(TravelLocation::Anchor),
            ],
        )
    } else {
        (drone, Seq::<DroneActionModel>::empty())
    }
}

/// Handles the closing of an incident.
pub fn handle_close_incident(
    drone: &mut DroneState,
    closing_incident_uuid: &String,
    current_incident: Option<&String>,
) -> (actions: Vec<DroneAction>)
    ensures
        (*final(drone), drone_actions_view(actions@)) == close_incident_transition(
            *old(drone),
            closing_incident_uuid@,
            match current_incident {
                Some(c) => Some(c@),
                None => None,
            },
        ),
{
    let mut actions: Vec<DroneAction> = Vec::new();
    let current = match current_incident {
        Some(current) => current,
        None => {
            assert(drone_actions_view(actions@) =~= Seq::<DroneActionModel>::empty());
            return actions;
        },
    };
    if *current != *closing_incident_uuid {
        assert(drone_actions_view(actions@) =~= Seq::<DroneActionModel>::empty());
        return actions;
    }
    drone.current_incident_count = 0;
    actions.push(DroneAction::DropIncident);
    let unsubscribe = Unsubscribe::new(1, vec![filter_about(close_incident_level_bytes(), closing_incident_uuid)]);
    assert(unsubscribe@.topics =~= seq![incident_filter(close_incident_level(), closing_incident_uuid@)]);
    actions.push(DroneAction::Send(Packet::Unsubscribe(unsubscribe)));
    actions.push(DroneAction::Travel(TravelLocation::Anchor));
    assert(drone_actions_view(actions@) =~= close_incident_transition(
        *old(drone),
        closing_incident_uuid@,
        Some(current@),
    ).1);
    actions
}

/// Handles the end of the travel back to the anchor after an incident closed: a drone that is
/// at its anchor is free again.
pub fn back_from_closed_incident(drone: &mut DroneState, in_anchor: bool)
    ensures
        *final(drone) == (if in_anchor { DroneState { status: DroneStatus::Free, ..*old(drone) } } else { *old(drone) }),
{
    if in_anchor {
        drone.set_status(DroneStatus::Free);
    }
}

/// The seconds between two looks at the incidents that wait for the drone.
pub const PENDING_INCIDENTS_INTERVAL: u64 = 1;

/// Whether the drone takes up the incident at the head of its queue: it has one, its battery
/// is not below the minimum, and it is free (or going back to its anchor).
pub open spec fn takes_up_incident(drone: DroneState, has_current_incident: bool) -> bool {
    &&& has_current_incident
    &&& drone.battery >= MINIMUM_BATTERY_LEVEL
    &&& (drone.status == DroneStatus::Free || drone.status == DroneStatus::Travelling(TravelLocation::Anchor))
}

/// One look at the incidents that wait for the drone: whether to start working on its current
/// incident. Either way the next look comes after [`PENDING_INCIDENTS_INTERVAL`] seconds.
pub fn handle_pending_incidents(drone: &DroneState, has_current_incident: bool) -> (start: bool)
    ensures
        start == takes_up_incident(*drone, has_current_incident),
{
    if drone.is_below_minimun() {
        return false;
    }
    if !drone.is_free() {
        return false;
    }
    has_current_incident
}

/// The incidents that a drone is to attend, in the order they came; the first is the one it
/// works on.
#[derive(Debug)]
pub struct IncidentQueue {
    pub incidents: Vec<Incident>,
}

impl View for IncidentQueue {
    type V = Seq<IncidentModel>;

    open spec fn view(&self) -> Seq<IncidentModel> {
        self.incidents@.map_values(|i: Incident| i@)
    }
}

impl IncidentQueue {
    /// A queue without incidents.
    pub fn new() -> (queue: Self)
        ensures
            queue@ == Seq::<IncidentModel>::empty(),
    {
        let queue = IncidentQueue { incidents: Vec::new() };
        assert(queue@ =~= Seq::<IncidentModel>::empty());
        queue
    }

    /// Adds an incident to the drone queue of incidents
    pub fn add_incident(&mut self, incident: Incident)
        ensures
            final(self)@ == old(self)@.push(incident@),
    {
        let ghost before = self@;
        let ghost added = incident@;
        self.incidents.push(incident);
        assert(self@ =~= before.push(added));
    }

    /// Returns the current incident of the drone
    pub fn current_incident(&self) -> (incident: Option<&Incident>)
        ensures
            match incident {
                Some(i) => self@.len() > 0 && i@ == self@[0],
                None => self@.len() == 0,
            },
    {
        if self.incidents.len() == 0 {
            None
        } else {
            Some(&self.incidents[0])
        }
    }

    /// Removes the current incident of the drone; the count of drones attending it goes back
    /// to none.
    pub fn remove_current_incident(&mut self, drone: &mut DroneState)
        ensures
            final(self)@ == (if old(self)@.len() == 0 { old(self)@ } else { old(self)@.drop_first() }),
            *final(drone) == (DroneState { current_incident_count: 0, ..*old(drone) }),
    {
        if self.incidents.len() > 0 {
            let ghost before = self@;
            self.incidents.remove(0);
            assert(self@ =~= before.drop_first());
        }
        drone.current_incident_count = 0;
    }
}

/// Setting out: the drone follows who attends the incident, on "attending-incident/<uuid>",
/// and travels to the incident; nothing of the drone changes yet.
pub proof fn lemma_incident_start(uuid: Seq<char>, drone: DroneState, event: IncidentEvent)
    ensures
        ({
            let (phase, after, actions) = incident_transition(IncidentPhase::Start, uuid, drone, event);
            &&& phase == IncidentPhase::GoingToIncident
            &&& after == drone
            &&& actions == seq![
                DroneActionModel::Send(PacketModel::Subscribe(SubscribeModel {
                    packet_identifier: 1,
                    topics: seq![(TopicFilterModel {
                        levels: seq![
                            TopicLevelModel::Literal(attending_incident_level()),
                            TopicLevelModel::Literal(vstd::utf8::encode_utf8(uuid)),
                        ],
                        server_reserved: false,
                    }, QoS::AtMost)],
                })),
                DroneActionModel::Travel(TravelLocation::Incident),
            ]
        }),
{
}

/// Arriving at the incident: an interrupted drone drops the incident, with the count of drones
/// attending it, and goes back to its anchor; any other drone attends the incident and says so,
/// retained, on "attending-incident/<uuid>". Its battery and identifier are left alone.
pub proof fn lemma_incident_arrival(uuid: Seq<char>, drone: DroneState, in_anchor: bool)
    ensures
        ({
            let (phase, after, actions) = incident_transition(
                IncidentPhase::GoingToIncident,
                uuid,
                drone,
                IncidentEvent::Arrived { in_anchor },
            );
            &&& after.id == drone.id && after.battery == drone.battery
            &&& drone.status == DroneStatus::Interrupted ==> {
                &&& phase == IncidentPhase::GoingBackToAnchor
                &&& after.status == drone.status && after.current_incident_count == 0
                &&& actions == seq![DroneActionModel::DropIncident, DroneActionModel::Travel(TravelLocation::Anchor)]
            }
            &&& drone.status != DroneStatus::Interrupted ==> {
                &&& phase == IncidentPhase::WaitingForDrones
                &&& after.status == DroneStatus::AttendingIncident
                &&& after.current_incident_count == drone.current_incident_count
                &&& actions.len() == 1
                &&& actions[0] matches DroneActionModel::Send(PacketModel::Publish(p)) && p.retain
                    && p.topic.levels == seq![attending_incident_level(), vstd::utf8::encode_utf8(uuid)]
                    && !p.topic.server_reserved
            }
        }),
{
}

/// Waiting at the incident: the drone goes on to attend it only once at least two drones
/// attend it; until then it waits a second and looks again. Waiting changes nothing of the
/// drone.
pub proof fn lemma_incident_waits_for_two_drones(uuid: Seq<char>, drone: DroneState)
    ensures
        ({
            let (phase, after, actions) = incident_transition(IncidentPhase::WaitingForDrones, uuid, drone, IncidentEvent::Tick);
            &&& after == drone
            &&& (phase == IncidentPhase::Attending) <==> drone.current_incident_count >= 2
            &&& phase != IncidentPhase::Attending ==> phase == IncidentPhase::WaitingForDrones && actions
                == seq![DroneActionModel::Sleep(1)]
            &&& phase == IncidentPhase::Attending ==> actions.len() == 3 && actions[2] == DroneActionModel::Sleep(10)
        }),
{
}

/// Once the drone has attended the incident, it says, retained, on "ready-incident/<uuid>",
/// that the incident can be resolved, and its work is over.
pub proof fn lemma_incident_resolved(uuid: Seq<char>, drone: DroneState)
    ensures
        ({
            let (phase, after, actions) = incident_transition(IncidentPhase::Attending, uuid, drone, IncidentEvent::Tick);
            &&& phase == IncidentPhase::Done
            &&& after == drone
            &&& actions.len() == 1
            &&& actions[0] matches DroneActionModel::Send(PacketModel::Publish(p)) && p.retain
                && p.topic.levels == seq![ready_incident_level(), vstd::utf8::encode_utf8(uuid)]
                && p.message.len() == 0
        }),
{
}

/// The closing of an incident concerns the drone only when it is its current incident: then
/// the drone drops it, stops following its closing and goes back to its anchor; any other
/// closing leaves the drone as it was and asks for nothing.
pub proof fn lemma_close_incident_only_current(drone: DroneState, closing: Seq<char>, current: Option<Seq<char>>)
    ensures
        ({
            let (after, actions) = close_incident_transition(drone, closing, current);
            &&& current != Some(closing) ==> after == drone && actions.len() == 0
            &&& current == Some(closing) ==> {
                &&& after == (DroneState { current_incident_count: 0, ..drone })
                &&& actions.len() == 3
                &&& actions[0] == DroneActionModel::DropIncident
                &&& actions[2] == DroneActionModel::Travel(TravelLocation::Anchor)
            }
        }),
{
}

} // verus!
