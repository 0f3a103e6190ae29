use mqtt::encryptation::encryping_tool::decrypt;
use mqtt::model::components::encoded_string::EncodedString;
use mqtt::model::components::fixed_header::FixedHeader;
use mqtt::model::components::login::Login;
use mqtt::model::components::qos::QoS;
use mqtt::model::components::remaining_length::RemainingLength;
use mqtt::model::components::topic_filter::TopicFilter;
use mqtt::model::components::topic_name::TopicName;
use mqtt::model::components::will::Will;
use mqtt::model::packets::connack::Connack;
use mqtt::model::packets::connect::{protocol_name_bytes, Connect, PROTOCOL_LEVEL};
use mqtt::model::packets::puback::Puback;
use mqtt::model::packets::publish::Publish;
use mqtt::model::packets::suback::Suback;
use mqtt::model::packets::subscribe::Subscribe;
use mqtt::model::packets::unsuback::Unsuback;
use mqtt::model::packets::unsubscribe::Unsubscribe;
use mqtt::model::packets::{
    CONNACK_PACKET_TYPE, CONNECT_PACKET_TYPE, RESERVED_FIXED_HEADER_FLAGS, SUBSCRIBE_PACKET_TYPE,
    UNSUBSCRIBE_PACKET_TYPE,
};
use mqtt::model::return_codes::connect_return_code::ConnectReturnCode;
use mqtt::model::return_codes::suback_return_code::SubackReturnCode;
use mqtt::stream::ByteStream;

const KEY: &[u8; 32] = &[0; 32];

fn from_slice(bytes: &[u8]) -> ByteStream {
    let encoded_string = EncodedString::new(bytes.to_vec());
    ByteStream::new(encoded_string.to_bytes())
}

fn stream_of(bytes: &[u8]) -> ByteStream {
    ByteStream::new(bytes.to_vec())
}

fn open_packet(encrypted_bytes: &[u8]) -> Vec<u8> {
    let fixed_header_bytes = encrypted_bytes[0..2].to_vec();
    let decrypted_bytes = decrypt(&encrypted_bytes[2..], KEY).unwrap();
    [fixed_header_bytes, decrypted_bytes].concat()
}

fn connack_variable_header_bytes(session_present: bool, connect_return_code: ConnectReturnCode) -> Vec<u8> {
    let session_present_byte = if session_present { 0x01 } else { 0x00 };
    vec![session_present_byte, connect_return_code.to_byte()]
}

fn connect_variable_header_bytes(flags: u8, keep_alive: u16) -> Vec<u8> {
    let protocol_name_bytes = EncodedString::new(protocol_name_bytes()).to_bytes();
    let mut variable_header_bytes = vec![];
    variable_header_bytes.extend(protocol_name_bytes);
    variable_header_bytes.push(PROTOCOL_LEVEL);
    variable_header_bytes.push(flags);
    variable_header_bytes.extend(keep_alive.to_be_bytes());
    variable_header_bytes
}

fn connect_header_bytes(remaining_length: RemainingLength, flags: u8, keep_alive: u16) -> Vec<u8> {
    let fixed_header_bytes = FixedHeader::new(CONNECT_PACKET_TYPE << 4, remaining_length).to_bytes();
    let variable_header_bytes = connect_variable_header_bytes(flags, keep_alive);
    [&fixed_header_bytes[..], &variable_header_bytes[..]].concat()
}

fn connect_fixed_header(first_byte: u8, remaining_length: u32) -> FixedHeader {
    FixedHeader::new(first_byte, RemainingLength::new(remaining_length))
}

#[test]
fn test_simple_connack_to_bytes() {
    let connack = Connack::new(false, ConnectReturnCode::ConnectionAccepted);
    let connack_bytes = open_packet(&connack.to_bytes(KEY));

    let fixed_header_bytes = FixedHeader::new(CONNACK_PACKET_TYPE << 4, RemainingLength::new(2)).to_bytes();
    let expected_bytes = [
        &fixed_header_bytes[..],
        &connack_variable_header_bytes(false, ConnectReturnCode::ConnectionAccepted)[..],
    ]
    .concat();

    assert_eq!(connack_bytes, expected_bytes);
}

#[test]
fn test_simple_connack_from_bytes() {
    let connack_bytes = connack_variable_header_bytes(false, ConnectReturnCode::ConnectionAccepted);
    let fixed_header = FixedHeader::new(CONNACK_PACKET_TYPE << 4, RemainingLength::new(2));

    let connack = Connack::from_bytes(fixed_header, &mut stream_of(&connack_bytes)).unwrap();

    assert!(!connack.session_present());
    assert_eq!(connack.connect_return_code(), &ConnectReturnCode::ConnectionAccepted);
}

#[test]
fn connack_test_invalid_fixed_header_flags() {
    let fixed_header = FixedHeader::new(CONNACK_PACKET_TYPE << 4 | 0b0000_0001, RemainingLength::new(2));

    let connack = Connack::from_bytes(fixed_header, &mut stream_of(&[]));
    assert!(connack.is_err());
}

#[test]
fn test_invalid_return_code() {
    let connack_bytes = vec![0b0000_0000, 0b0000_0110];
    let fixed_header = FixedHeader::new(CONNACK_PACKET_TYPE << 4, RemainingLength::new(2));

    let connack = Connack::from_bytes(fixed_header, &mut stream_of(&connack_bytes));
    assert!(connack.is_err());
}

#[test]
fn test_simple_connect_to_bytes() {
    let client_id = EncodedString::new(b"a".to_vec());

    let connect = Connect::new(false, 10, client_id, None, None);
    let connect_bytes = open_packet(&connect.to_bytes(KEY));

    let expected_header_bytes = connect_header_bytes(RemainingLength::new(13), 0b0000_0000, 10);
    let expected_payload_bytes = EncodedString::new(b"a".to_vec()).to_bytes();
    let expected_bytes = [&expected_header_bytes[..], &expected_payload_bytes[..]].concat();

    assert_eq!(connect_bytes, expected_bytes);
}

#[test]
fn test_connect_to_bytes_with_will() {
    let client_id = EncodedString::new(b"a".to_vec());
    let will = Will::new(
        QoS::AtLeast,
        true,
        TopicName::new(vec![b"home".to_vec(), b"livingroom".to_vec()], false),
        EncodedString::new(b"message".to_vec()),
    );
    let expected_will_bytes = will.to_bytes();

    let connect = Connect::new(false, 10, client_id, Some(will), None);
    let connect_bytes = open_packet(&connect.to_bytes(KEY));

    let expected_header_bytes = connect_header_bytes(RemainingLength::new(39), 0b0010_1100, 10);
    let expected_client_id_bytes = EncodedString::new(b"a".to_vec()).to_bytes();
    let expected_payload_bytes = [&expected_client_id_bytes[..], &expected_will_bytes[..]].concat();
    let expected_bytes = [&expected_header_bytes[..], &expected_payload_bytes[..]].concat();

    assert_eq!(connect_bytes, expected_bytes);
}

#[test]
fn test_connect_to_bytes_with_login() {
    let client_id = EncodedString::new(b"a".to_vec());
    let login = Login::new(
        EncodedString::new(b"username".to_vec()),
        Some(EncodedString::new(b"password".to_vec())),
    );
    let expected_login_bytes = login.to_bytes();

    let connect = Connect::new(false, 10, client_id, None, Some(login));
    let connect_bytes = open_packet(&connect.to_bytes(KEY));

    let expected_header_bytes = connect_header_bytes(RemainingLength::new(33), 0b1100_0000, 10);
    let expected_client_id_bytes = EncodedString::new(b"a".to_vec()).to_bytes();
    let expected_payload_bytes = [&expected_client_id_bytes[..], &expected_login_bytes[..]].concat();
    let expected_bytes = [&expected_header_bytes[..], &expected_payload_bytes[..]].concat();

    assert_eq!(connect_bytes, expected_bytes);
}

#[test]
fn test_simple_connect_from_bytes() {
    let header_bytes = connect_variable_header_bytes(0b0000_0000, 10);
    let client_id_bytes = EncodedString::new(b"a".to_vec()).to_bytes();
    let connect_bytes = [&header_bytes[..], &client_id_bytes[..]].concat();

    let fixed_header = connect_fixed_header(CONNECT_PACKET_TYPE << 4 | RESERVED_FIXED_HEADER_FLAGS, 13);

    let connect = Connect::from_bytes(fixed_header, &mut stream_of(&connect_bytes)).unwrap();

    assert!(!connect.clean_session());
    assert_eq!(connect.keep_alive(), 10);
    assert_eq!(connect.client_id(), &EncodedString::new(b"a".to_vec()));
    assert_eq!(connect.will(), None);
    assert_eq!(connect.login(), None);
}

#[test]
fn test_connect_from_bytes_with_will() {
    let header_bytes = connect_variable_header_bytes(0b0010_1100, 10);
    let client_id_bytes = EncodedString::new(b"a".to_vec()).to_bytes();
    let will = Will::new(
        QoS::AtLeast,
        true,
        TopicName::new(vec![b"home".to_vec(), b"livingroom".to_vec()], false),
        EncodedString::new(b"message".to_vec()),
    );
    let will_bytes = will.to_bytes();
    let connect_bytes = [&header_bytes[..], &client_id_bytes[..], &will_bytes[..]].concat();

    let fixed_header = connect_fixed_header(CONNECT_PACKET_TYPE << 4 | RESERVED_FIXED_HEADER_FLAGS, 39);

    let connect = Connect::from_bytes(fixed_header, &mut stream_of(&connect_bytes)).unwrap();

    assert_eq!(connect.will(), Some(&will));
}

#[test]
fn test_connect_from_bytes_with_login() {
    let header_bytes = connect_variable_header_bytes(0b1100_0000, 10);
    let client_id_bytes = EncodedString::new(b"a".to_vec()).to_bytes();
    let login = Login::new(
        EncodedString::new(b"username".to_vec()),
        Some(EncodedString::new(b"password".to_vec())),
    );
    let login_bytes = login.to_bytes();
    let connect_bytes = [&header_bytes[..], &client_id_bytes[..], &login_bytes[..]].concat();

    let fixed_header = connect_fixed_header(CONNECT_PACKET_TYPE << 4 | RESERVED_FIXED_HEADER_FLAGS, 33);

    let connect = Connect::from_bytes(fixed_header, &mut stream_of(&connect_bytes)).unwrap();

    assert_eq!(connect.login(), Some(&login));
}

#[test]
fn connect_test_invalid_fixed_header_flags() {
    let fixed_header = connect_fixed_header(CONNECT_PACKET_TYPE << 4 | 0b0000_0001, 13);

    let connect = Connect::from_bytes(fixed_header, &mut stream_of(&[]));
    assert!(connect.is_err());
}

#[test]
fn test_invalid_protocol_name() {
    let invalid_protocol_name = vec![b'A', b'M', b'Q', b'P'];
    let connect_bytes = EncodedString::new(invalid_protocol_name).to_bytes();

    let fixed_header = connect_fixed_header(CONNECT_PACKET_TYPE << 4 | RESERVED_FIXED_HEADER_FLAGS, 13);

    let connect = Connect::from_bytes(fixed_header, &mut stream_of(&connect_bytes));
    assert!(connect.is_err());
}

#[test]
fn test_invalid_protocol_level() {
    let protocol_name = EncodedString::new(protocol_name_bytes()).to_bytes();
    let protocol_level = [0];
    let connect_bytes = [&protocol_name[..], &protocol_level[..]].concat();

    let fixed_header = connect_fixed_header(CONNECT_PACKET_TYPE << 4 | RESERVED_FIXED_HEADER_FLAGS, 13);

    let connect = Connect::from_bytes(fixed_header, &mut stream_of(&connect_bytes));
    assert!(connect.is_err());
}

#[test]
fn test_invalid_flags() {
    let protocol_name_bytes = EncodedString::new(protocol_name_bytes()).to_bytes();
    let mut connect_bytes = vec![];
    connect_bytes.extend(protocol_name_bytes);
    connect_bytes.push(PROTOCOL_LEVEL);

    for invalid_flags in [0b0000_0001, 0b1000_0000, 0b0000_1000, 0b0010_0000] {
        let mut connect_bytes = connect_bytes.clone();
        connect_bytes.push(invalid_flags);

        let fixed_header = connect_fixed_header(CONNECT_PACKET_TYPE << 4 | RESERVED_FIXED_HEADER_FLAGS, 13);

        let connect = Connect::from_bytes(fixed_header, &mut stream_of(&connect_bytes));
        assert!(connect.is_err());
    }
}

#[test]
fn test_connect_protocol_name_other_than_mqtt_refused() {
    for name in [b"MQ".to_vec(), b"MQT".to_vec(), b"MQTTX".to_vec(), Vec::new()] {
        let connect_bytes = EncodedString::new(name).to_bytes();
        let fixed_header = connect_fixed_header(CONNECT_PACKET_TYPE << 4, 13);
        let connect = Connect::from_bytes(fixed_header, &mut stream_of(&connect_bytes));
        assert!(matches!(connect, Err(mqtt::errors::error::MqttError::InvalidProtocolName)));
    }
}

#[test]
fn test_connect_roundtrip() {
    let will = Will::new(
        QoS::Exactly,
        false,
        TopicName::new(vec![b"alerts".to_vec()], false),
        EncodedString::new(b"bye".to_vec()),
    );
    let login = Login::new(EncodedString::new(b"user".to_vec()), None);
    let connect = Connect::new(true, 60, EncodedString::new(b"drone-1".to_vec()), Some(will), Some(login));

    let bytes = connect.to_bytes(KEY);
    let mut stream = ByteStream::new(bytes);
    let fixed_header = FixedHeader::from_bytes(&mut stream).unwrap();
    let content = decrypt(&stream.read_exact(stream.remaining()).unwrap(), KEY).unwrap();
    let read = Connect::from_bytes(fixed_header, &mut ByteStream::new(content)).unwrap();

    assert!(read.clean_session());
    assert_eq!(read.keep_alive(), 60);
    assert_eq!(read.client_id(), connect.client_id());
    assert_eq!(read.will(), connect.will());
    assert_eq!(read.login(), connect.login());
}

#[test]
fn test_puback_to_bytes() {
    let puback = Puback::new(Some(42));
    let puback_bytes = open_packet(&puback.to_bytes(KEY));

    let expected_bytes: Vec<u8> = vec![0b0100_0000, 0x02, 0x00, 0x2A];

    assert_eq!(puback_bytes, expected_bytes);
}

#[test]
fn test_puback_from_bytes() {
    let mut stream = ByteStream::new(vec![0x00, 0x2A]);
    let fixed_header = FixedHeader::new(0x4 << 4, RemainingLength::new(2));
    let puback = Puback::from_bytes(fixed_header, &mut stream).unwrap();
    assert_eq!(puback, Puback::new(Some(42)));
}

#[test]
fn test_from_bytes() {
    let mut stream = ByteStream::new(vec![0b0011_0000, 6_u8, 0x00, 0x03, b'a', b'/', b'b', b'c']);

    let fixed_header = FixedHeader::from_bytes(&mut stream).unwrap();
    let publish = Publish::from_bytes(fixed_header, &mut stream).unwrap();

    assert!(!publish.dup());
    assert_eq!(publish.qos(), &QoS::AtMost);
    assert!(!publish.retain());
    assert_eq!(publish.topic().serialize(), "a/b");
    assert_eq!(publish.package_identifier(), None);
    assert_eq!(publish.message(), &vec![b'c']);
}

#[test]
fn test_to_bytes() {
    let bytes = &mut from_slice(b"a/b");
    let topic_name = TopicName::from_bytes(bytes).unwrap();

    let publish = Publish::new(false, QoS::AtMost, false, topic_name, None, vec![b'c']);

    let bytes = open_packet(&publish.to_bytes(KEY));

    let expected_bytes = vec![0b0011_0000, 6_u8, 0x00, 0x03, b'a', b'/', b'b', b'c'];

    assert_eq!(bytes, expected_bytes);
}

#[test]
fn test_publish_with_identifier_and_flags() {
    let mut stream = ByteStream::new(vec![0b0011_1011, 8_u8, 0x00, 0x03, b'a', b'/', b'b', 0x00, 0x07, b'c']);

    let fixed_header = FixedHeader::from_bytes(&mut stream).unwrap();
    let publish = Publish::from_bytes(fixed_header, &mut stream).unwrap();

    assert!(publish.dup());
    assert_eq!(publish.qos(), &QoS::AtLeast);
    assert!(publish.retain());
    assert_eq!(publish.package_identifier(), Some(7));
    assert_eq!(publish.message(), &vec![b'c']);
}

#[test]
fn test_publish_remaining_length_too_short_cannot_be_read() {
    let mut stream = ByteStream::new(vec![0b0011_0000, 2_u8, 0x00, 0x03, b'a', b'/', b'b', b'c']);
    let fixed_header = FixedHeader::from_bytes(&mut stream).unwrap();
    assert!(Publish::try_from_bytes(fixed_header, &mut stream).is_none());
}

#[test]
fn test_suback_to_bytes() {
    let suback = Suback::new(
        42,
        vec![
            SubackReturnCode::SuccessMaximumQoS0,
            SubackReturnCode::SuccessMaximumQoS1,
            SubackReturnCode::SuccessMaximumQoS2,
        ],
    );

    let expected_bytes: Vec<u8> = vec![144_u8, 5_u8, 0_u8, 42_u8, 0x00_u8, 0x01_u8, 0x02_u8];

    assert_eq!(open_packet(&suback.to_bytes(KEY)), expected_bytes);
}

#[test]
fn test_suback_from_bytes() {
    let bytes: Vec<u8> = vec![0_u8, 42_u8, 0x00_u8, 0x01_u8, 0x02_u8];

    let fixed_header = FixedHeader::new(0b1001_0000, RemainingLength::new(5));
    let suback = Suback::from_bytes(fixed_header, &mut stream_of(&bytes)).unwrap();

    let return_codes = suback.suback_return_codes();
    assert_eq!(suback.packet_identifier(), 42);
    assert_eq!(return_codes.len(), 3);
    assert_eq!(return_codes[0], SubackReturnCode::SuccessMaximumQoS0);
    assert_eq!(return_codes[1], SubackReturnCode::SuccessMaximumQoS1);
    assert_eq!(return_codes[2], SubackReturnCode::SuccessMaximumQoS2);
}

#[test]
fn test_suback_invalid_return_code() {
    let bytes: Vec<u8> = vec![0_u8, 42_u8, 0x00_u8, 0x05_u8];
    let fixed_header = FixedHeader::new(0b1001_0000, RemainingLength::new(4));
    assert!(Suback::from_bytes(fixed_header, &mut stream_of(&bytes)).is_err());
}

#[test]
fn test_subscribe_from_bytes() {
    let packet_identifier = 1;
    let bytes = &mut from_slice(b"topic1");
    let topic_filter = TopicFilter::from_bytes(bytes).unwrap();

    let topics = vec![(topic_filter, QoS::AtMost)];

    let mut stream = ByteStream::new(vec![0x00, 0x01, 0x00, 0x06, b't', b'o', b'p', b'i', b'c', b'1', 0x00]);

    let fixed_header = FixedHeader::new(SUBSCRIBE_PACKET_TYPE << 4, RemainingLength::new(11));
    let subscribe = Subscribe::from_bytes(fixed_header, &mut stream).unwrap();

    assert_eq!(subscribe.packet_identifier(), packet_identifier);
    assert_eq!(subscribe.topics(), topics);
}

#[test]
fn test_subscribe_to_bytes() {
    let packet_identifier = 1;
    let bytes = &mut from_slice(b"topic1");
    let topic_filter = TopicFilter::from_bytes(bytes).unwrap();
    let topics = vec![(topic_filter, QoS::AtMost)];

    let subscribe = Subscribe::new(packet_identifier, topics);
    let subscribe_bytes = open_packet(&subscribe.to_bytes(KEY));

    let expected_bytes = vec![
        128_u8, 0x0b, // Fixed Header
        0x00, 0x01, // Packet Identifier
        0x00, 6_u8, b't', b'o', b'p', b'i', b'c', b'1', 0x00, // Topic Filter
    ];

    assert_eq!(subscribe_bytes, expected_bytes);
}

#[test]
fn test_subscribe_without_topics() {
    let mut stream = ByteStream::new(vec![0x00, 0x01]);
    let fixed_header = FixedHeader::new(SUBSCRIBE_PACKET_TYPE << 4, RemainingLength::new(2));
    assert!(Subscribe::from_bytes(fixed_header, &mut stream).is_err());
}

#[test]
fn test_unsuback_to_bytes() {
    let unsuback = Unsuback::new(42);
    let expected_bytes: Vec<u8> = vec![0b1011_0000, 0x02, 0x00, 0x2A];

    assert_eq!(open_packet(&unsuback.to_bytes(KEY)), expected_bytes);
}

#[test]
fn test_unsuback_from_bytes() {
    let bytes: Vec<u8> = vec![0x00, 0x2A];

    let fixed_header = FixedHeader::new(176_u8, RemainingLength::new(2));
    let unsuback = Unsuback::from_bytes(fixed_header, &mut stream_of(&bytes)).unwrap();

    assert_eq!(unsuback.packet_identifier(), 42);
}

#[test]
fn test_unsubscribe_from_bytes() {
    let packet_identifier = 1;
    let bytes = &mut from_slice(b"topic1");
    let topic_filter = TopicFilter::from_bytes(bytes).unwrap();
    let topics = vec![topic_filter];

    let mut stream = ByteStream::new(vec![0x00, 0x01, 0x00, 0x06, b't', b'o', b'p', b'i', b'c', b'1']);

    let fixed_header = FixedHeader::new(UNSUBSCRIBE_PACKET_TYPE << 4, RemainingLength::new(10));
    let unsubscribe = Unsubscribe::from_bytes(fixed_header, &mut stream).unwrap();

    assert_eq!(unsubscribe.packet_identifier(), packet_identifier);
    assert_eq!(unsubscribe.topics(), &topics);
}

#[test]
fn test_unsubscribe_to_bytes() {
    let packet_identifier = 1;
    let bytes = &mut from_slice(b"topic1");
    let topic_filter = TopicFilter::from_bytes(bytes).unwrap();
    let topics = vec![topic_filter];

    let unsubscribe = Unsubscribe::new(packet_identifier, topics);
    let unsubscribe_bytes = open_packet(&unsubscribe.to_bytes(KEY));

    let expected_bytes = vec![160_u8, 10_u8, 0x00, 0x01, 0x00, 0x06, b't', b'o', b'p', b'i', b'c', b'1'];

    assert_eq!(unsubscribe_bytes, expected_bytes);
}

#[test]
fn test_connect_return_code_to_byte() {
    assert_eq!(ConnectReturnCode::ConnectionAccepted.to_byte(), 0x00);
    assert_eq!(ConnectReturnCode::UnacceptableProtocolVersion.to_byte(), 0x01);
    assert_eq!(ConnectReturnCode::IdentifierRejected.to_byte(), 0x02);
    assert_eq!(ConnectReturnCode::ServerUnavailable.to_byte(), 0x03);
    assert_eq!(ConnectReturnCode::BadUsernameOrPassword.to_byte(), 0x04);
    assert_eq!(ConnectReturnCode::NotAuthorized.to_byte(), 0x05);
}

#[test]
fn test_connect_return_code_from_byte() {
    assert_eq!(ConnectReturnCode::from_byte(0x00).unwrap(), ConnectReturnCode::ConnectionAccepted);
    assert_eq!(ConnectReturnCode::from_byte(0x01).unwrap(), ConnectReturnCode::UnacceptableProtocolVersion);
    assert_eq!(ConnectReturnCode::from_byte(0x02).unwrap(), ConnectReturnCode::IdentifierRejected);
    assert_eq!(ConnectReturnCode::from_byte(0x03).unwrap(), ConnectReturnCode::ServerUnavailable);
    assert_eq!(ConnectReturnCode::from_byte(0x04).unwrap(), ConnectReturnCode::BadUsernameOrPassword);
    assert_eq!(ConnectReturnCode::from_byte(0x05).unwrap(), ConnectReturnCode::NotAuthorized);
}

#[test]
fn test_connect_return_code_invalid_message() {
    match ConnectReturnCode::from_byte(0x06) {
        Err(mqtt::errors::error::MqttError::InvalidReturnCode(message)) => {
            assert_eq!(message, "Invalid ConnackReturnCode: 6");
        }
        _ => panic!("a return code above 5 is refused"),
    }
}

#[test]
fn test_suback_return_code_to_byte() {
    assert_eq!(SubackReturnCode::SuccessMaximumQoS0.to_byte(), 0x00);
    assert_eq!(SubackReturnCode::SuccessMaximumQoS1.to_byte(), 0x01);
    assert_eq!(SubackReturnCode::SuccessMaximumQoS2.to_byte(), 0x02);
    assert_eq!(SubackReturnCode::Failure.to_byte(), 0x80);
}

#[test]
fn test_suback_return_code_from_byte() {
    assert_eq!(SubackReturnCode::from_byte(0x00).unwrap(), SubackReturnCode::SuccessMaximumQoS0);
    assert_eq!(SubackReturnCode::from_byte(0x01).unwrap(), SubackReturnCode::SuccessMaximumQoS1);
    assert_eq!(SubackReturnCode::from_byte(0x02).unwrap(), SubackReturnCode::SuccessMaximumQoS2);
    assert_eq!(SubackReturnCode::from_byte(0x80).unwrap(), SubackReturnCode::Failure);
    assert!(SubackReturnCode::from_byte(0x03).is_err());
}
