use mqtt::model::components::qos::QoS;
use mqtt::model::components::topic_name::TopicName;
use mqtt::model::packets::publish::Publish;
use mqtt::monitor::channels_tasks::DroneRegistration;
use mqtt::monitor::client::{detected_incident, monitor_subscribe_packet, register_drone, try_detected_incident};
use mqtt::server::registration::{read_reserved_topic_request, ReservedTopicRequest};

#[test]
fn test_build_drone_message() {
    let registration = DroneRegistration {
        id: "drone3".to_string(),
        username: "pilot".to_string(),
        password: "secret".to_string(),
    };
    assert_eq!(registration.build_drone_message(), "drone3;pilot;secret");
}

#[test]
fn test_register_drone_publish() {
    let registration = DroneRegistration {
        id: "drone3".to_string(),
        username: "pilot".to_string(),
        password: "secret".to_string(),
    };
    let publish = register_drone(registration, 12).unwrap();
    assert!(!publish.dup());
    assert_eq!(publish.qos(), &QoS::AtLeast);
    assert!(!publish.retain());
    assert!(publish.topic().server_reserved());
    assert_eq!(publish.topic().serialize(), "$client-register");
    assert_eq!(publish.package_identifier(), Some(12));
    assert_eq!(publish.message(), &b"drone3;pilot;secret".to_vec());
}

#[test]
fn test_drone_registration_read_back() {
    let registration = DroneRegistration {
        id: "drone3".to_string(),
        username: "pilot".to_string(),
        password: "secret".to_string(),
    };
    let publish = register_drone(registration, 1).unwrap();
    assert_eq!(
        read_reserved_topic_request(&publish, b"admin"),
        ReservedTopicRequest::Register {
            client_id: b"drone3".to_vec(),
            username: b"pilot".to_vec(),
            password: b"secret".to_vec(),
        }
    );
}

#[test]
fn test_monitor_subscription() {
    let subscribe = monitor_subscribe_packet();
    assert_eq!(subscribe.packet_identifier(), 1);
    let topics: Vec<String> = subscribe.topics().iter().map(|(filter, _)| filter.serialize()).collect();
    assert_eq!(
        topics,
        vec![
            "camera-data",
            "camera-update",
            "attending-incident/+",
            "drone-data/+",
            "ready-incident/+",
            "detected-incident/+",
        ]
    );
    assert!(subscribe.topics().iter().all(|(_, qos)| qos == &QoS::AtLeast));
}

#[test]
fn test_detected_incident() {
    let topic = TopicName::new(vec![b"detected-incident".to_vec(), b"4".to_vec()], false);
    let publish = Publish::new(false, QoS::AtLeast, false, topic, Some(1), b"10.5;-3;Fire".to_vec());
    let registration = detected_incident(&publish);
    assert_eq!(registration.name, "Autodetected incident (Fire)");
    assert_eq!(registration.description, "By AWS Rekonginition services - Camera 4");
    assert_eq!(registration.x, "10.5");
    assert_eq!(registration.y, "-3");
}

#[test]
fn test_detected_incident_unreadable() {
    let topic = TopicName::new(vec![b"detected-incident".to_vec(), b"4".to_vec()], false);
    let publish = Publish::new(false, QoS::AtLeast, false, topic, Some(1), b"10.5;-3".to_vec());
    assert!(try_detected_incident(&publish).is_none());
    let topic = TopicName::new(vec![b"detected-incident".to_vec()], false);
    let publish = Publish::new(false, QoS::AtLeast, false, topic, Some(1), b"1;2;Fire".to_vec());
    assert!(try_detected_incident(&publish).is_none());
}

use mqtt::model::packet::Packet;
use mqtt::model::packets::puback::Puback;
use mqtt::monitor::session::{monitor_can_read, monitor_step, MonitorCommand, MonitorEvent, MonitorState};

fn publish_from_server(levels: &[&[u8]], message: &[u8]) -> Publish {
    let topic = TopicName::new(levels.iter().map(|l| l.to_vec()).collect(), false);
    Publish::new(false, QoS::AtLeast, false, topic, Some(3), message.to_vec())
}

fn received(levels: &[&[u8]], message: &[u8]) -> MonitorEvent {
    MonitorEvent::Received(Packet::Publish(publish_from_server(levels, message)))
}

#[test]
fn test_monitor_dispatches_by_topic() {
    let mut state = MonitorState::new();

    let commands = monitor_step(&mut state, received(&[b"drone-data", b"4"], b"1.0;2.0;0;90"));
    assert_eq!(commands.len(), 1);
    assert!(matches!(&commands[0], MonitorCommand::ShowDrone(p) if p.message() == &b"1.0;2.0;0;90".to_vec()));

    let commands = monitor_step(&mut state, received(&[b"camera-data"], b"1;0.0;0.0;0"));
    assert!(matches!(&commands[0], MonitorCommand::ShowCameras(_)));

    let commands = monitor_step(&mut state, received(&[b"attending-incident", b"12"], b""));
    assert!(matches!(&commands[0], MonitorCommand::AttendIncident(id) if id == "12"));

    let commands = monitor_step(&mut state, received(&[b"ready-incident", b"12"], b""));
    assert!(matches!(&commands[0], MonitorCommand::ReadyIncident(id) if id == "12"));

    let commands = monitor_step(&mut state, received(&[b"detected-incident", b"7"], b"3.5;4.5;Fire"));
    match &commands[0] {
        MonitorCommand::ShowDetectedIncident(r) => {
            assert_eq!(r.name, "Autodetected incident (Fire)");
            assert_eq!(r.description, "By AWS Rekonginition services - Camera 7");
            assert_eq!(r.x, "3.5");
            assert_eq!(r.y, "4.5");
        }
        other => panic!("expected a detected incident, got {:?}", other),
    }

    let commands = monitor_step(&mut state, received(&[b"new-incident"], b""));
    assert!(matches!(&commands[0], MonitorCommand::UnknownTopic));
    assert_eq!(state.publish_counter, 0);
    assert!(state.unacknowledged.is_empty());
}

#[test]
fn test_monitor_can_read() {
    assert!(monitor_can_read(&publish_from_server(&[b"drone-data", b"4"], b"")));
    assert!(!monitor_can_read(&publish_from_server(&[b"attending-incident"], b"")));
    assert!(!monitor_can_read(&publish_from_server(&[b"detected-incident", b"7"], b"3.5;4.5")));
    assert!(monitor_can_read(&publish_from_server(&[b"detected-incident", b"7"], b"3.5;4.5;Fire")));
}

#[test]
fn test_monitor_publishes_wait_for_acknowledgement() {
    let mut state = MonitorState::new();
    let registration = DroneRegistration {
        id: "d1".to_string(),
        username: "u".to_string(),
        password: "p".to_string(),
    };
    let commands = monitor_step(&mut state, MonitorEvent::RegisterDrone(registration));
    assert_eq!(commands.len(), 1);
    match &commands[0] {
        MonitorCommand::Send(p) => {
            assert_eq!(p.package_identifier(), Some(0));
            assert_eq!(p.topic().serialize(), "$client-register");
            assert_eq!(p.message(), &b"d1;u;p".to_vec());
            assert_eq!(p.qos(), &QoS::AtLeast);
        }
        other => panic!("expected a publish, got {:?}", other),
    }
    let commands = monitor_step(&mut state, MonitorEvent::Written { sent: true });
    assert!(commands.is_empty());
    assert_eq!(state.publish_counter, 1);
    assert_eq!(state.unacknowledged, vec![0]);

    let commands = monitor_step(&mut state, MonitorEvent::ResolveIncident("5".to_string()));
    assert_eq!(commands.len(), 2);
    assert!(matches!(&commands[0], MonitorCommand::ResolveIncident(id) if id == "5"));
    match &commands[1] {
        MonitorCommand::Send(p) => {
            assert_eq!(p.package_identifier(), Some(1));
            assert_eq!(p.topic().serialize(), "close-incident/5");
            assert!(p.message().is_empty());
            assert!(!p.retain());
        }
        other => panic!("expected a publish, got {:?}", other),
    }
    let commands = monitor_step(&mut state, MonitorEvent::Written { sent: false });
    assert!(commands.is_empty());
    assert_eq!(state.publish_counter, 2);
    assert_eq!(state.unacknowledged, vec![0]);

    let commands = monitor_step(&mut state, MonitorEvent::Received(Packet::Puback(Puback::new(Some(1)))));
    assert!(matches!(&commands[0], MonitorCommand::UnmatchedAcknowledgement));
    let commands = monitor_step(&mut state, MonitorEvent::Received(Packet::Puback(Puback::new(Some(0)))));
    assert!(commands.is_empty());
    assert!(state.unacknowledged.is_empty());
}

use mqtt::common::incident::{Incident, IncidentStatus};

#[test]
fn test_monitor_registers_incident() {
    let mut state = MonitorState::new();
    state.publish_counter = 7;
    let incident = Incident::new(
        "0".to_string(),
        "Fire".to_string(),
        "Big".to_string(),
        "1.5".to_string(),
        "2.5".to_string(),
        IncidentStatus::Pending,
    );
    let commands = monitor_step(&mut state, MonitorEvent::RegisterIncident(incident));
    assert_eq!(commands.len(), 2);
    assert!(matches!(&commands[0], MonitorCommand::AddIncident(i) if i.uuid == "0" && i.name == "Fire"));
    match &commands[1] {
        MonitorCommand::Send(p) => {
            assert_eq!(p.topic().serialize(), "new-incident");
            assert!(p.retain());
            assert_eq!(p.qos(), &QoS::AtLeast);
            assert_eq!(p.package_identifier(), Some(7));
            assert_eq!(p.message(), &b"0;Fire;Big;1.5;2.5;0".to_vec());
        }
        other => panic!("expected a publish, got {:?}", other),
    }
    assert_eq!(state.publish_counter, 7);
}

use mqtt::monitor::channels_tasks::IncidentEdit;

#[test]
fn test_monitor_edits_incident() {
    let mut state = MonitorState::new();
    let edit = IncidentEdit { uuid: "3".to_string(), name: "Flood".to_string(), description: "River".to_string() };
    let commands = monitor_step(&mut state, MonitorEvent::EditIncident(edit));
    assert_eq!(commands.len(), 1);
    assert!(matches!(&commands[0], MonitorCommand::EditIncident(e) if e.uuid == "3" && e.name == "Flood" && e.description == "River"));
    assert_eq!(state.publish_counter, 0);
}
