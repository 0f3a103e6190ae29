use mqtt::drone::client::{handle_publish, DroneEvent};
use mqtt::model::components::qos::QoS;
use mqtt::model::components::topic_name::TopicName;
use mqtt::model::packets::publish::Publish;

fn publish_on(levels: &[&[u8]], message: &[u8]) -> Publish {
    let topic = TopicName::new(levels.iter().map(|level| level.to_vec()).collect(), false);
    Publish::new(false, QoS::AtMost, false, topic, None, message.to_vec())
}

#[test]
fn test_drone_new_incident() {
    let publish = publish_on(&[b"new-incident"], b"7;fire;big;1;2;0");
    assert_eq!(handle_publish(&publish), DroneEvent::NewIncident("7;fire;big;1;2;0".to_string()));
}

#[test]
fn test_drone_attending_and_closing() {
    let publish = publish_on(&[b"attending-incident", b"7"], b"");
    assert_eq!(handle_publish(&publish), DroneEvent::AttendingIncident("7".to_string()));
    let publish = publish_on(&[b"close-incident", b"7"], b"");
    assert_eq!(handle_publish(&publish), DroneEvent::CloseIncident("7".to_string()));
}

#[test]
fn test_drone_ignores_other_messages() {
    assert_eq!(handle_publish(&publish_on(&[b"close-incident"], b"")), DroneEvent::Ignored);
    assert_eq!(handle_publish(&publish_on(&[b"close-incident", &[0xFF]], b"")), DroneEvent::Ignored);
    assert_eq!(handle_publish(&publish_on(&[b"new-incident"], &[0xC3])), DroneEvent::Ignored);
    assert_eq!(handle_publish(&publish_on(&[b"drone-data", b"1"], b"x")), DroneEvent::Ignored);
}

use mqtt::drone::drone::{DroneState, DroneStatus, TravelLocation};

#[test]
fn test_drone_battery_discharge() {
    let mut drone = DroneState::new(1);
    assert_eq!(drone.battery, 100);
    assert!(drone.is_free());
    drone.discharge_battery();
    assert_eq!(drone.battery, 98);
    drone.set_status(DroneStatus::Free);
    drone.discharge_battery();
    assert_eq!(drone.battery, 97);
    drone.set_status(DroneStatus::Recharging);
    drone.discharge_battery();
    assert_eq!(drone.battery, 97);
    drone.battery = 1;
    drone.set_status(DroneStatus::AttendingIncident);
    drone.discharge_battery();
    assert_eq!(drone.battery, 0);
    assert!(drone.is_below_minimun());
}

#[test]
fn test_drone_recharge_until_full() {
    let mut drone = DroneState::new(1);
    drone.battery = 0;
    let mut periods = 0;
    while !drone.is_fully_charged() {
        drone.recharge_battery();
        periods += 1;
    }
    assert_eq!(periods, 20);
    drone.battery = 98;
    drone.recharge_battery();
    assert_eq!(drone.battery, 100);
}

#[test]
fn test_drone_interrupted_by_attending_drones() {
    let mut drone = DroneState::new(1);
    drone.set_status(DroneStatus::Travelling(TravelLocation::Incident));
    let current = "7".to_string();
    drone.handle_attending_incident(&"8".to_string(), Some(&current));
    assert_eq!(drone.current_incident_count, 0);
    drone.handle_attending_incident(&"7".to_string(), Some(&current));
    assert_eq!(drone.current_incident_count, 1);
    assert!(!drone.is_interrupted());
    drone.handle_attending_incident(&"7".to_string(), Some(&current));
    assert_eq!(drone.current_incident_count, 2);
    assert!(drone.is_interrupted());
    drone.handle_attending_incident(&"7".to_string(), None);
    assert_eq!(drone.current_incident_count, 2);
}

use mqtt::drone::drone::{recharge_step, RechargeAction, RechargeEvent, RechargePhase};

#[test]
fn test_recharge_cycle() {
    let mut drone = DroneState::new(1);
    drone.set_status(DroneStatus::Free);
    let (phase, action) = recharge_step(RechargePhase::Watching, &mut drone, RechargeEvent::Tick);
    assert_eq!((phase, action), (RechargePhase::Watching, RechargeAction::Sleep(5)));

    drone.battery = 10;
    let (phase, action) = recharge_step(phase, &mut drone, RechargeEvent::Tick);
    assert_eq!((phase, action), (RechargePhase::GoingToCentral, RechargeAction::Travel(TravelLocation::Central)));
    let (mut phase, _) = recharge_step(phase, &mut drone, RechargeEvent::Arrived { in_anchor: false });
    assert_eq!(drone.status, DroneStatus::Recharging);

    let mut ticks = 0;
    while phase == RechargePhase::Recharging {
        let (next, _) = recharge_step(phase, &mut drone, RechargeEvent::Tick);
        phase = next;
        ticks += 1;
    }
    assert_eq!(ticks, 18);
    assert_eq!(drone.battery, 100);
    assert_eq!(phase, RechargePhase::GoingToAnchor);
    let (phase, _) = recharge_step(phase, &mut drone, RechargeEvent::Arrived { in_anchor: true });
    assert_eq!(phase, RechargePhase::Watching);
    assert_eq!(drone.status, DroneStatus::Free);
}

use mqtt::drone::incident::{handle_incident, DroneAction, IncidentEvent, IncidentPhase, IncidentWork};
use mqtt::model::packet::Packet;

fn subscribed_filter(action: &DroneAction) -> String {
    match action {
        DroneAction::Send(Packet::Subscribe(s)) => {
            assert_eq!(s.packet_identifier(), 1);
            let topics = s.topics();
            assert_eq!(topics.len(), 1);
            assert_eq!(topics[0].1, QoS::AtMost);
            topics[0].0.serialize()
        }
        other => panic!("expected a subscription, got {:?}", other),
    }
}

fn announced_topic(action: &DroneAction) -> String {
    match action {
        DroneAction::Send(Packet::Publish(p)) => {
            assert!(p.retain());
            assert_eq!(p.qos(), &QoS::AtMost);
            assert!(p.message().is_empty());
            p.topic().serialize()
        }
        other => panic!("expected an announcement, got {:?}", other),
    }
}

#[test]
fn test_handle_incident_attends_and_resolves() {
    let mut drone = DroneState::new(3);
    let mut work = IncidentWork { phase: IncidentPhase::Start, uuid: "42".to_string() };

    let actions = handle_incident(&mut work, &mut drone, IncidentEvent::Tick);
    assert_eq!(actions.len(), 2);
    assert_eq!(subscribed_filter(&actions[0]), "attending-incident/42");
    assert!(matches!(actions[1], DroneAction::Travel(TravelLocation::Incident)));
    assert_eq!(work.phase, IncidentPhase::GoingToIncident);

    let actions = handle_incident(&mut work, &mut drone, IncidentEvent::Arrived { in_anchor: false });
    assert_eq!(actions.len(), 1);
    assert_eq!(announced_topic(&actions[0]), "attending-incident/42");
    assert_eq!(drone.status, DroneStatus::AttendingIncident);
    assert_eq!(work.phase, IncidentPhase::WaitingForDrones);

    drone.current_incident_count = 1;
    let actions = handle_incident(&mut work, &mut drone, IncidentEvent::Tick);
    assert_eq!(actions.len(), 1);
    assert!(matches!(actions[0], DroneAction::Sleep(1)));
    assert_eq!(work.phase, IncidentPhase::WaitingForDrones);

    drone.current_incident_count = 2;
    let actions = handle_incident(&mut work, &mut drone, IncidentEvent::Tick);
    assert_eq!(actions.len(), 3);
    assert_eq!(subscribed_filter(&actions[0]), "close-incident/42");
    match &actions[1] {
        DroneAction::Send(Packet::Unsubscribe(u)) => {
            assert_eq!(u.packet_identifier(), 1);
            assert_eq!(u.topics().len(), 1);
            assert_eq!(u.topics()[0].serialize(), "attending-incident/42");
        }
        other => panic!("expected an unsubscription, got {:?}", other),
    }
    assert!(matches!(actions[2], DroneAction::Sleep(10)));
    assert_eq!(work.phase, IncidentPhase::Attending);

    let actions = handle_incident(&mut work, &mut drone, IncidentEvent::Tick);
    assert_eq!(actions.len(), 1);
    assert_eq!(announced_topic(&actions[0]), "ready-incident/42");
    assert_eq!(work.phase, IncidentPhase::Done);
    assert_eq!(work.uuid, "42");

    let actions = handle_incident(&mut work, &mut drone, IncidentEvent::Tick);
    assert!(actions.is_empty());
    assert_eq!(work.phase, IncidentPhase::Done);
}

#[test]
fn test_handle_incident_interrupted_goes_back() {
    let mut drone = DroneState::new(4);
    let mut work = IncidentWork { phase: IncidentPhase::GoingToIncident, uuid: "9".to_string() };
    drone.set_status(DroneStatus::Interrupted);
    drone.current_incident_count = 2;

    let actions = handle_incident(&mut work, &mut drone, IncidentEvent::Arrived { in_anchor: false });
    assert_eq!(actions.len(), 2);
    assert!(matches!(actions[0], DroneAction::DropIncident));
    assert!(matches!(actions[1], DroneAction::Travel(TravelLocation::Anchor)));
    assert_eq!(drone.current_incident_count, 0);
    assert_eq!(work.phase, IncidentPhase::GoingBackToAnchor);

    let actions = handle_incident(&mut work, &mut drone, IncidentEvent::Arrived { in_anchor: true });
    assert!(actions.is_empty());
    assert_eq!(drone.status, DroneStatus::Free);
    assert_eq!(work.phase, IncidentPhase::Done);
}

use mqtt::drone::incident::{back_from_closed_incident, handle_close_incident};

#[test]
fn test_handle_close_incident() {
    let mut drone = DroneState::new(5);
    drone.set_status(DroneStatus::AttendingIncident);
    drone.current_incident_count = 2;
    let current = "11".to_string();

    let actions = handle_close_incident(&mut drone, &"12".to_string(), Some(&current));
    assert!(actions.is_empty());
    assert_eq!(drone.current_incident_count, 2);
    let actions = handle_close_incident(&mut drone, &"11".to_string(), None);
    assert!(actions.is_empty());

    let actions = handle_close_incident(&mut drone, &"11".to_string(), Some(&current));
    assert_eq!(actions.len(), 3);
    assert!(matches!(actions[0], DroneAction::DropIncident));
    match &actions[1] {
        DroneAction::Send(Packet::Unsubscribe(u)) => {
            assert_eq!(u.packet_identifier(), 1);
            assert_eq!(u.topics().len(), 1);
            assert_eq!(u.topics()[0].serialize(), "close-incident/11");
        }
        other => panic!("expected an unsubscription, got {:?}", other),
    }
    assert!(matches!(actions[2], DroneAction::Travel(TravelLocation::Anchor)));
    assert_eq!(drone.current_incident_count, 0);

    back_from_closed_incident(&mut drone, false);
    assert_eq!(drone.status, DroneStatus::AttendingIncident);
    back_from_closed_incident(&mut drone, true);
    assert_eq!(drone.status, DroneStatus::Free);
}

use mqtt::drone::incident::handle_pending_incidents;

#[test]
fn test_handle_pending_incidents() {
    let mut drone = DroneState::new(6);
    drone.set_status(DroneStatus::Free);
    assert!(handle_pending_incidents(&drone, true));
    assert!(!handle_pending_incidents(&drone, false));
    drone.set_status(DroneStatus::Travelling(TravelLocation::Anchor));
    assert!(handle_pending_incidents(&drone, true));
    drone.set_status(DroneStatus::AttendingIncident);
    assert!(!handle_pending_incidents(&drone, true));
    drone.set_status(DroneStatus::Free);
    drone.battery = 19;
    assert!(!handle_pending_incidents(&drone, true));
    drone.battery = 20;
    assert!(handle_pending_incidents(&drone, true));
}

use mqtt::common::incident::{Incident, IncidentStatus};
use mqtt::drone::incident::IncidentQueue;

fn queued_incident(uuid: &str) -> Incident {
    Incident::new(uuid.to_string(), "n".to_string(), "d".to_string(), "1".to_string(), "2".to_string(), IncidentStatus::Pending)
}

#[test]
fn test_incident_queue() {
    let mut drone = DroneState::new(7);
    let mut queue = IncidentQueue::new();
    assert!(queue.current_incident().is_none());
    queue.add_incident(queued_incident("1"));
    queue.add_incident(queued_incident("2"));
    assert_eq!(queue.current_incident().unwrap().uuid, "1");
    drone.current_incident_count = 2;
    queue.remove_current_incident(&mut drone);
    assert_eq!(drone.current_incident_count, 0);
    assert_eq!(queue.current_incident().unwrap().uuid, "2");
    queue.remove_current_incident(&mut drone);
    assert!(queue.current_incident().is_none());
    queue.remove_current_incident(&mut drone);
    assert!(queue.incidents.is_empty());
}
