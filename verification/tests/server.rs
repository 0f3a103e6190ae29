use mqtt::model::components::qos::QoS;
use mqtt::model::components::topic_filter::TopicFilter;
use mqtt::model::components::topic_level::TopicLevel;
use mqtt::model::components::topic_name::TopicName;
use mqtt::model::packet::Packet;
use mqtt::model::packets::publish::Publish;
use mqtt::model::packets::subscribe::Subscribe;
use mqtt::model::packets::unsubscribe::Unsubscribe;
use mqtt::model::return_codes::connect_return_code::ConnectReturnCode;
use mqtt::model::return_codes::suback_return_code::SubackReturnCode;
use mqtt::server::backup::{bytes_to_hex, hex_to_bytes, lines_of, try_hex_bytes_to_bytes};
use mqtt::model::packets::connack::Connack;
use mqtt::model::packets::disconnect::Disconnect;
use mqtt::model::packets::pingreq::Pingreq;
use mqtt::server::client::Client;
use mqtt::server::incoming::handle_packet;
use mqtt::server::log_messages::{
    client_does_not_exist_message, client_registrated_message, error_getting_stream_message,
    error_sending_packet_message, info_sent_packet_message, log_entry, publish_message,
    sending_message_error_message, sent_message_message, subscription_message, unsubscription_message,
};
use mqtt::server::registration::{read_reserved_topic_request, ReservedTopicRequest};
use mqtt::server::task_handler::{Action, Task, TaskHandler};

const KEY: &[u8; 32] = &[3; 32];

fn filter(text: &str) -> TopicFilter {
    let levels = text
        .split('/')
        .map(|level| TopicLevel::from_bytes(level.as_bytes().to_vec()).unwrap())
        .collect();
    TopicFilter::new(levels, false)
}

fn topic(text: &str) -> TopicName {
    TopicName::new(text.split('/').map(|level| level.as_bytes().to_vec()).collect(), false)
}

fn connect(handler: &mut TaskHandler, id: &str) {
    let actions = handler.handle_task(Task::ConnectClient(Client::new(id.as_bytes().to_vec())));
    assert!(matches!(actions.last(), Some(Action::Send(_, Packet::Connack(_)))));
    handler.mark_active(id.as_bytes().to_vec());
}

fn subscribe(handler: &mut TaskHandler, id: &str, filters: &[&str]) -> Vec<Action> {
    let topics = filters.iter().map(|f| (filter(f), QoS::AtMost)).collect();
    handler.handle_task(Task::SubscribeClient(Subscribe::new(1, topics), id.as_bytes().to_vec()))
}

fn sent_publishes(actions: &[Action], to: &str) -> Vec<Vec<u8>> {
    actions
        .iter()
        .filter_map(|action| match action {
            Action::Send(id, Packet::Publish(p)) if id == to.as_bytes() => Some(p.message().clone()),
            _ => None,
        })
        .collect()
}

#[test]
fn test_bytes_to_hex() {
    assert_eq!(bytes_to_hex(&[0x00, 0x0F, 0xA5, 0xFF]), "000FA5FF");
    assert_eq!(bytes_to_hex(&[]), "");
}

#[test]
fn test_hex_to_bytes() {
    assert_eq!(hex_to_bytes("000FA5FF"), Ok(vec![0x00, 0x0F, 0xA5, 0xFF]));
    assert_eq!(hex_to_bytes("a5"), Ok(vec![0xA5]));
    assert_eq!(hex_to_bytes("+F"), Ok(vec![0x0F]));
    assert_eq!(hex_to_bytes(""), Ok(vec![]));
}

#[test]
fn test_hex_to_bytes_invalid_digit() {
    assert_eq!(hex_to_bytes("0G"), Err("invalid digit found in string".to_string()));
}

#[test]
fn test_hex_roundtrip() {
    let bytes: Vec<u8> = (0..=255).collect();
    assert_eq!(hex_to_bytes(&bytes_to_hex(&bytes)), Ok(bytes));
}

#[test]
fn test_hex_odd_length_cannot_be_read() {
    assert_eq!(try_hex_bytes_to_bytes(b"ABC"), None);
    assert_eq!(try_hex_bytes_to_bytes("0é".as_bytes()), None);
}

#[test]
fn test_lines_of() {
    let lines = lines_of(b"first\r\nsecond\n\nlast");
    assert_eq!(lines, vec![b"first".to_vec(), b"second".to_vec(), vec![], b"last".to_vec()]);
    assert_eq!(lines_of(b"one\n"), vec![b"one".to_vec()]);
    assert_eq!(lines_of(b""), Vec::<Vec<u8>>::new());
}

#[test]
fn test_log_entry() {
    assert_eq!(log_entry("2024-06-01 10:00:00", "INFO", "started"), "[2024-06-01 10:00:00] INFO: started");
}

#[test]
fn test_log_messages() {
    assert_eq!(client_does_not_exist_message(b"drone1"), "Client drone1 does not exist");
    assert_eq!(info_sent_packet_message("Connack", b"drone1"), "Sent Connack packet to client drone1");
    assert_eq!(error_sending_packet_message("Suback", b"drone1"), "Error sending Suback packet to client drone1");
    assert_eq!(
        error_getting_stream_message(b"drone1", "Puback"),
        "Error getting stream for client drone1 when sending Puback packet"
    );
    assert_eq!(sent_message_message("hi".to_string(), "c1".to_string()), "Sent message: hi to client c1");
    assert_eq!(
        sending_message_error_message("hi".to_string(), "c1".to_string()),
        "Error sending message: hi to client c1"
    );
    assert_eq!(client_registrated_message(b"drone1"), "Client with id drone1 has been registered successfully");
}

#[test]
fn test_subscription_messages() {
    let subscribe = Subscribe::new(1, vec![(filter("home/+"), QoS::AtMost), (filter("camera/#"), QoS::AtMost)]);
    assert_eq!(subscription_message(b"monitor", &subscribe), "Client monitor subscribed to topics home/+, camera/#, ");
    assert_eq!(subscription_message(&[0xFF], &subscribe), "Failed to convert client ID to string");
    let unsubscribe = Unsubscribe::new(2, vec![filter("home/+")]);
    assert_eq!(unsubscription_message(b"monitor", &unsubscribe), "Client monitor unsubscribed to topics home/+, ");
    let publish = Publish::new(false, QoS::AtMost, false, topic("home/kitchen"), None, b"hot".to_vec());
    assert_eq!(publish_message(b"sensor", &publish), "Client sensor published message hot to topic home/kitchen");
}

#[test]
fn test_reserved_topic_request() {
    let register_topic = TopicName::new(vec![b"$client-register".to_vec()], true);
    let publish = Publish::new(false, QoS::AtLeast, false, register_topic, Some(1), b"drone7;user;pass".to_vec());
    assert_eq!(
        read_reserved_topic_request(&publish, b"admin"),
        ReservedTopicRequest::Register {
            client_id: b"drone7".to_vec(),
            username: b"user".to_vec(),
            password: b"pass".to_vec(),
        }
    );
    assert_eq!(read_reserved_topic_request(&publish, b"drone1"), ReservedTopicRequest::NotAdmin);

    let other_topic = TopicName::new(vec![b"$other".to_vec()], true);
    let publish = Publish::new(false, QoS::AtLeast, false, other_topic, Some(1), b"a;b;c".to_vec());
    assert_eq!(read_reserved_topic_request(&publish, b"admin"), ReservedTopicRequest::InvalidTopic);

    let register_topic = TopicName::new(vec![b"$client-register".to_vec()], true);
    let publish = Publish::new(false, QoS::AtLeast, false, register_topic, Some(1), b"only;two".to_vec());
    assert_eq!(read_reserved_topic_request(&publish, b"admin"), ReservedTopicRequest::InvalidRegistration);
}

#[test]
fn test_client_subscriptions() {
    let mut client = Client::new(b"c1".to_vec());
    assert_eq!(client.id(), b"c1".to_vec());
    assert!(!client.is_subscribed(&topic("home/kitchen")));
    client.add_subscription(filter("home/+"));
    client.add_subscription(filter("home/+"));
    assert!(client.is_subscribed(&topic("home/kitchen")));
    assert!(!client.is_subscribed(&topic("garden")));
    client.remove_subscription(&filter("home/+"));
    assert!(!client.is_subscribed(&topic("home/kitchen")));
    assert!(client.subscriptions.is_empty());
}

#[test]
fn test_connect_new_and_known_client() {
    let mut handler = TaskHandler::default();
    let actions = handler.handle_task(Task::ConnectClient(Client::new(b"c1".to_vec())));
    assert_eq!(actions.len(), 1);
    match &actions[0] {
        Action::Send(id, Packet::Connack(connack)) => {
            assert_eq!(id, b"c1");
            assert!(connack.session_present());
            assert_eq!(connack.connect_return_code(), &ConnectReturnCode::ConnectionAccepted);
        }
        other => panic!("expected a connack, got {:?}", other),
    }
    let actions = handler.handle_task(Task::ConnectClient(Client::new(b"c1".to_vec())));
    assert_eq!(actions.len(), 2);
    assert!(matches!(&actions[0], Action::Info(message) if message == "Client c1 reconnected"));
    assert!(matches!(&actions[1], Action::Send(_, Packet::Connack(_))));
}

#[test]
fn test_unknown_client_is_reported() {
    let mut handler = TaskHandler::default();
    let actions = subscribe(&mut handler, "ghost", &["home/#"]);
    assert_eq!(actions.len(), 1);
    assert!(matches!(&actions[0], Action::Error(message) if message == "Client ghost does not exist"));
    let actions = handler.handle_task(Task::RespondPing(b"ghost".to_vec()));
    assert!(matches!(&actions[0], Action::Error(message) if message == "Client ghost does not exist"));
}

#[test]
fn test_ping_of_known_client() {
    let mut handler = TaskHandler::default();
    connect(&mut handler, "c1");
    let actions = handler.handle_task(Task::RespondPing(b"c1".to_vec()));
    assert_eq!(actions.len(), 1);
    assert!(matches!(&actions[0], Action::Send(id, Packet::Pingresp(_)) if id == b"c1"));
}

#[test]
fn test_subscribe_acknowledged() {
    let mut handler = TaskHandler::default();
    connect(&mut handler, "c1");
    let actions = subscribe(&mut handler, "c1", &["home/+"]);
    assert_eq!(actions.len(), 2);
    match &actions[0] {
        Action::Send(id, Packet::Suback(suback)) => {
            assert_eq!(id, b"c1");
            assert_eq!(suback.packet_identifier(), 1);
            assert_eq!(suback.suback_return_codes(), &vec![SubackReturnCode::SuccessMaximumQoS0]);
        }
        other => panic!("expected a suback, got {:?}", other),
    }
    assert!(matches!(&actions[1], Action::Info(message) if message == "Client c1 subscribed to topics home/+, "));
}

#[test]
fn test_connected_subscriber_gets_publish() {
    let mut handler = TaskHandler::default();
    connect(&mut handler, "sub");
    connect(&mut handler, "pub");
    subscribe(&mut handler, "sub", &["home/+"]);
    let publish = Publish::new(false, QoS::AtLeast, false, topic("home/kitchen"), Some(9), b"hot".to_vec());
    let actions = handler.handle_task(Task::Publish(publish, b"pub".to_vec()));
    assert!(matches!(&actions[0], Action::Info(message) if message == "Client pub published message hot to topic home/kitchen"));
    assert_eq!(sent_publishes(&actions, "sub"), vec![b"hot".to_vec()]);
    assert!(matches!(actions.last(), Some(Action::Send(id, Packet::Puback(puback))) if id == b"pub" && puback.packet_identifier() == Some(9)));
}

#[test]
fn test_publish_without_subscribers() {
    let mut handler = TaskHandler::default();
    connect(&mut handler, "pub");
    let publish = Publish::new(false, QoS::AtMost, false, topic("nobody/here"), None, b"x".to_vec());
    let actions = handler.handle_task(Task::Publish(publish, b"pub".to_vec()));
    assert_eq!(actions.len(), 1);
    assert!(matches!(&actions[0], Action::Error(message) if message == "No clients subscribed to topic: nobody/here"));
}

#[test]
fn test_offline_subscriber_gets_queued_messages() {
    let mut handler = TaskHandler::default();
    connect(&mut handler, "sub");
    connect(&mut handler, "pub");
    subscribe(&mut handler, "sub", &["alerts"]);
    handler.handle_task(Task::DisconnectClient(b"sub".to_vec()));
    for message in [b"one".to_vec(), b"two".to_vec()] {
        let publish = Publish::new(false, QoS::AtMost, false, topic("alerts"), None, message);
        let actions = handler.handle_task(Task::Publish(publish, b"pub".to_vec()));
        assert!(sent_publishes(&actions, "sub").is_empty());
    }
    connect(&mut handler, "sub");
    let publish = Publish::new(false, QoS::AtMost, false, topic("alerts"), None, b"three".to_vec());
    let actions = handler.handle_task(Task::Publish(publish, b"sub".to_vec()));
    assert_eq!(sent_publishes(&actions, "sub"), vec![b"three".to_vec(), b"one".to_vec(), b"two".to_vec()]);
}

#[test]
fn test_retained_message_reaches_later_subscriber() {
    let mut handler = TaskHandler::default();
    connect(&mut handler, "pub");
    connect(&mut handler, "late");
    let publish = Publish::new(false, QoS::AtMost, true, topic("incident/new"), None, b"fire".to_vec());
    handler.handle_task(Task::Publish(publish, b"pub".to_vec()));
    let actions = subscribe(&mut handler, "late", &["incident/#"]);
    assert_eq!(sent_publishes(&actions, "late"), vec![b"fire".to_vec()]);
}

#[test]
fn test_unsubscribed_client_gets_nothing() {
    let mut handler = TaskHandler::default();
    connect(&mut handler, "sub");
    connect(&mut handler, "pub");
    subscribe(&mut handler, "sub", &["home/+"]);
    let unsubscribe = Unsubscribe::new(4, vec![filter("home/+")]);
    let actions = handler.handle_task(Task::UnsubscribeClient(unsubscribe, b"sub".to_vec()));
    assert!(matches!(&actions[0], Action::Info(message) if message == "Client sub unsubscribed to topics home/+, "));
    assert!(matches!(&actions[1], Action::Send(id, Packet::Unsuback(u)) if id == b"sub" && u.packet_identifier() == 4));
    let publish = Publish::new(false, QoS::AtMost, false, topic("home/kitchen"), None, b"hot".to_vec());
    let actions = handler.handle_task(Task::Publish(publish, b"pub".to_vec()));
    assert!(matches!(&actions[0], Action::Error(_)));
}

#[test]
fn test_disconnect_tells_client_manager() {
    let mut handler = TaskHandler::default();
    connect(&mut handler, "c1");
    let actions = handler.handle_task(Task::DisconnectClient(b"c1".to_vec()));
    assert_eq!(actions.len(), 1);
    assert!(matches!(&actions[0], Action::Disconnect(id) if id == b"c1"));
}

#[test]
fn test_admin_registers_client() {
    let mut handler = TaskHandler::default();
    let register_topic = TopicName::new(vec![b"$client-register".to_vec()], true);
    let publish = Publish::new(false, QoS::AtLeast, false, register_topic, Some(1), b"drone7;user;pass".to_vec());
    let actions = handler.handle_task(Task::Publish(publish, b"admin".to_vec()));
    assert_eq!(actions.len(), 1);
    assert!(matches!(&actions[0], Action::Register(id, user, pass) if id == b"drone7" && user == b"user" && pass == b"pass"));

    let register_topic = TopicName::new(vec![b"$client-register".to_vec()], true);
    let publish = Publish::new(false, QoS::AtLeast, false, register_topic, Some(1), b"drone7;user;pass".to_vec());
    let actions = handler.handle_task(Task::Publish(publish, b"drone1".to_vec()));
    assert!(matches!(&actions[0], Action::Error(message) if message == "Client is not admin"));
}

#[test]
fn test_backup_roundtrip() {
    let mut handler = TaskHandler::default();
    connect(&mut handler, "sub");
    connect(&mut handler, "pub");
    subscribe(&mut handler, "sub", &["alerts", "incident/#"]);
    handler.handle_task(Task::DisconnectClient(b"sub".to_vec()));
    let queued = Publish::new(false, QoS::AtMost, false, topic("alerts"), None, b"queued".to_vec());
    handler.handle_task(Task::Publish(queued, b"pub".to_vec()));
    let retained = Publish::new(false, QoS::AtMost, true, topic("incident/new"), None, b"kept".to_vec());
    handler.handle_task(Task::Publish(retained, b"pub".to_vec()));

    let backup = handler.serialize(KEY);
    assert_eq!(backup.lines().count(), 5);
    assert!(backup.lines().all(|line| line.split(';').count() == 3));

    let mut restored = TaskHandler::deserialize(&backup, KEY);
    restored.mark_active(b"sub".to_vec());
    let publish = Publish::new(false, QoS::AtMost, false, topic("alerts"), None, b"fresh".to_vec());
    let actions = restored.handle_task(Task::Publish(publish, b"sub".to_vec()));
    assert_eq!(sent_publishes(&actions, "sub"), vec![b"fresh".to_vec(), b"queued".to_vec(), b"kept".to_vec()]);

    let actions = subscribe(&mut restored, "sub", &["incident/+"]);
    assert_eq!(sent_publishes(&actions, "sub"), vec![b"kept".to_vec()]);
}

#[test]
fn test_deserialize_skips_unreadable_records() {
    let backup = "X;00;00\nnot a record\nC;ZZ;00\n";
    let mut handler = TaskHandler::deserialize(backup, KEY);
    let actions = handler.handle_task(Task::RespondPing(b"x".to_vec()));
    assert!(matches!(&actions[0], Action::Error(_)));
}

#[test]
fn test_deserialize_refuses_cut_field() {
    assert!(TaskHandler::try_deserialize("C;ABC;00\n", KEY).is_none());
}

#[test]
fn test_handle_packet_publish() {
    let publish = Publish::new(false, QoS::AtMost, false, topic("home/kitchen"), None, b"hot".to_vec());
    let (logs, task, keep_reading) = handle_packet(Packet::Publish(publish), b"c1".to_vec());
    assert_eq!(logs.len(), 1);
    assert!(matches!(&logs[0], Action::Info(message) if message == "Received Publish packet from client: c1"));
    assert!(matches!(task, Task::Publish(p, id) if id == b"c1" && p.message() == &b"hot".to_vec()));
    assert!(keep_reading);
}

#[test]
fn test_handle_packet_pingreq_and_disconnect() {
    let (logs, task, keep_reading) = handle_packet(Packet::Pingreq(Pingreq::new()), b"c1".to_vec());
    assert!(matches!(&logs[0], Action::Info(message) if message == "Received Pingreq packet from client: c1"));
    assert!(matches!(task, Task::RespondPing(id) if id == b"c1"));
    assert!(keep_reading);

    let (logs, task, keep_reading) = handle_packet(Packet::Disconnect(Disconnect::new()), b"c1".to_vec());
    assert!(matches!(&logs[0], Action::Info(message) if message == "Received Disconnect packet from client: c1"));
    assert!(matches!(task, Task::DisconnectClient(id) if id == b"c1"));
    assert!(!keep_reading);
}

#[test]
fn test_handle_packet_unsupported() {
    let connack = Connack::new(false, ConnectReturnCode::ConnectionAccepted);
    let (logs, task, keep_reading) = handle_packet(Packet::Connack(connack), b"c1".to_vec());
    assert_eq!(logs.len(), 2);
    assert!(matches!(&logs[0], Action::Error(message) if message == "Unsupported packet type"));
    assert!(matches!(&logs[1], Action::Info(message) if message == "Disconnecting client"));
    assert!(matches!(task, Task::DisconnectClient(id) if id == b"c1"));
    assert!(!keep_reading);
}

#[test]
fn test_try_serialize_empty_server() {
    let handler = TaskHandler::default();
    assert_eq!(handler.try_serialize(KEY), Some(String::new()));
}

#[test]
fn test_publish_without_subscribers_is_acknowledged() {
    let mut handler = TaskHandler::default();
    connect(&mut handler, "pub");
    let publish = Publish::new(false, QoS::AtLeast, false, topic("nobody/here"), Some(3), b"x".to_vec());
    let actions = handler.handle_task(Task::Publish(publish, b"pub".to_vec()));
    assert_eq!(actions.len(), 2);
    assert!(matches!(&actions[0], Action::Error(message) if message == "No clients subscribed to topic: nobody/here"));
    assert!(matches!(&actions[1], Action::Send(id, Packet::Puback(p)) if id == b"pub" && p.packet_identifier() == Some(3)));
}

#[test]
fn test_publish_without_subscribers_keeps_publisher_queue() {
    let mut handler = TaskHandler::default();
    connect(&mut handler, "sub");
    connect(&mut handler, "pub");
    subscribe(&mut handler, "sub", &["alerts"]);
    handler.handle_task(Task::DisconnectClient(b"sub".to_vec()));
    let publish = Publish::new(false, QoS::AtMost, false, topic("alerts"), None, b"one".to_vec());
    handler.handle_task(Task::Publish(publish, b"pub".to_vec()));
    connect(&mut handler, "sub");
    let publish = Publish::new(false, QoS::AtMost, false, topic("nobody/here"), None, b"x".to_vec());
    let actions = handler.handle_task(Task::Publish(publish, b"sub".to_vec()));
    assert_eq!(actions.len(), 1);
    assert!(sent_publishes(&actions, "sub").is_empty());
    let publish = Publish::new(false, QoS::AtMost, false, topic("alerts"), None, b"two".to_vec());
    let actions = handler.handle_task(Task::Publish(publish, b"sub".to_vec()));
    assert_eq!(sent_publishes(&actions, "sub"), vec![b"two".to_vec(), b"one".to_vec()]);
}

use mqtt::server::login::LoginRegistry;

#[test]
fn test_login_registry_from_file() {
    let registry = LoginRegistry::from_login_file(b"admin;root;secret\r\nbad line\ndrone1;pilot;pw\n\n");
    assert_eq!(registry.entries.len(), 2);
    assert!(registry.authenticate_client(b"admin", b"root", b"secret"));
    assert!(registry.authenticate_client(b"drone1", b"pilot", b"pw"));
    assert!(!registry.authenticate_client(b"drone1", b"pilot", b"other"));
    assert!(!registry.authenticate_client(b"ghost", b"pilot", b"pw"));
}

#[test]
fn test_login_registry_later_line_overrides() {
    let registry = LoginRegistry::from_login_file(b"d;u;old\nd;u;new\n");
    assert!(registry.authenticate_client(b"d", b"u", b"new"));
    assert!(!registry.authenticate_client(b"d", b"u", b"old"));
}

#[test]
fn test_login_registry_register_client() {
    let mut registry = LoginRegistry::from_login_file(b"");
    assert!(registry.entries.is_empty());
    let line = registry.register_client(b"d1".to_vec(), b"u".to_vec(), b"p".to_vec());
    assert_eq!(line, Some(b"d1;u;p\n".to_vec()));
    assert!(registry.authenticate_client(b"d1", b"u", b"p"));
    assert_eq!(registry.register_client(b"d1".to_vec(), b"u".to_vec(), b"p".to_vec()), None);
    assert_eq!(registry.entries.len(), 1);

    let mut contents = b"admin;root;secret\n".to_vec();
    contents.extend(line.unwrap());
    let read_back = LoginRegistry::from_login_file(&contents);
    assert!(read_back.authenticate_client(b"d1", b"u", b"p"));
    assert!(read_back.authenticate_client(b"admin", b"root", b"secret"));
}
