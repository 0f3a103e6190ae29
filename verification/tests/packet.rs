use mqtt::encryptation::encryping_tool::{decrypt, encrypt};
use mqtt::errors::error::MqttError;
use mqtt::model::components::qos::QoS;
use mqtt::model::components::topic_name::TopicName;
use mqtt::model::packet::Packet;
use mqtt::model::packets::pingreq::Pingreq;
use mqtt::model::packets::puback::Puback;
use mqtt::model::packets::publish::Publish;
use mqtt::stream::ByteStream;

const KEY: &[u8; 32] = &[7; 32];

#[test]
fn test_encrypt_decrypt() {
    let key = b"01234567890123456789012345678901";
    let data = b"Hello world!";

    let encrypted_data = encrypt(data.to_vec(), key);
    let decrypted_data = decrypt(&encrypted_data.unwrap(), key).unwrap();

    assert_eq!(data.to_vec(), decrypted_data);
}

#[test]
fn test_encrypt_adds_nonce_and_tag() {
    let encrypted_data = encrypt(vec![1, 2, 3], KEY).unwrap();
    assert_eq!(encrypted_data.len(), 3 + 12 + 16);
}

#[test]
fn test_decrypt_with_another_key_fails() {
    let encrypted_data = encrypt(vec![1, 2, 3], KEY).unwrap();
    assert_eq!(decrypt(&encrypted_data, &[8; 32]), Err("Error decrypting data".to_string()));
}

#[test]
fn test_packet_roundtrip_publish() {
    let topic = TopicName::new(vec![b"home".to_vec(), b"kitchen".to_vec()], false);
    let publish = Publish::new(false, QoS::AtLeast, true, topic, Some(5), b"hot".to_vec());
    let mut bytes = Packet::Publish(publish).to_bytes(KEY);
    bytes.extend([0xAA, 0xBB]);

    let mut stream = ByteStream::new(bytes);
    match Packet::from_bytes(&mut stream, KEY).unwrap() {
        Packet::Publish(read) => {
            assert_eq!(read.topic().serialize(), "home/kitchen");
            assert_eq!(read.qos(), &QoS::AtLeast);
            assert!(read.retain());
            assert_eq!(read.package_identifier(), Some(5));
            assert_eq!(read.message(), &b"hot".to_vec());
        }
        other => panic!("expected a publish, read {:?}", other),
    }
    assert_eq!(stream.remaining(), 2);
}

#[test]
fn test_packet_roundtrip_puback() {
    let bytes = Packet::Puback(Puback::new(Some(42))).to_bytes(KEY);
    let mut stream = ByteStream::new(bytes);
    match Packet::from_bytes(&mut stream, KEY).unwrap() {
        Packet::Puback(read) => assert_eq!(read.packet_identifier(), Some(42)),
        other => panic!("expected a puback, read {:?}", other),
    }
}

#[test]
fn test_packet_wrong_key() {
    let bytes = Packet::Puback(Puback::new(Some(42))).to_bytes(KEY);
    let mut stream = ByteStream::new(bytes);
    match Packet::from_bytes(&mut stream, &[0; 32]) {
        Err(MqttError::ErrorDecryption(message)) => assert_eq!(message, "Error decrypting data"),
        other => panic!("expected a decryption error, read {:?}", other),
    }
}

#[test]
fn test_packet_leftover_content() {
    let mut bytes = vec![0b0100_0000, 3];
    bytes.extend(encrypt(vec![0x00, 0x2A, 0x09], KEY).unwrap());
    let mut stream = ByteStream::new(bytes);
    assert!(matches!(Packet::from_bytes(&mut stream, KEY), Err(MqttError::InvalidRemainingLength)));
}

#[test]
fn test_packet_unknown_type() {
    let mut bytes = vec![0x00, 28];
    bytes.extend(encrypt(vec![], KEY).unwrap());
    let mut stream = ByteStream::new(bytes);
    match Packet::from_bytes(&mut stream, KEY) {
        Err(MqttError::InvalidPacketType(message)) => assert_eq!(message, "0"),
        other => panic!("expected an invalid packet type, read {:?}", other),
    }
}

#[test]
fn test_packet_truncated_stream() {
    let bytes = Packet::Puback(Puback::new(Some(42))).to_bytes(KEY);
    let mut stream = ByteStream::new(bytes[..bytes.len() - 1].to_vec());
    assert!(matches!(Packet::from_bytes(&mut stream, KEY), Err(MqttError::IoError)));
}

#[test]
fn test_pingreq_bytes_read_back() {
    let mut bytes = Packet::Pingreq(Pingreq::new()).to_bytes(KEY);
    assert_eq!(bytes, vec![0b1100_0000, 0]);
    bytes.push(0x55);
    let mut stream = ByteStream::new(bytes);
    assert!(matches!(Packet::from_bytes(&mut stream, KEY), Ok(Packet::Pingreq(_))));
    assert_eq!(stream.remaining(), 1);
}

#[test]
fn test_disconnect_with_flags_refused() {
    let mut stream = ByteStream::new(vec![0b1110_0001, 0]);
    assert!(matches!(Packet::from_bytes(&mut stream, KEY), Err(MqttError::InvalidFixedHeaderFlags)));
}

#[test]
fn test_packet_try_to_bytes() {
    let topic = TopicName::new(vec![b"home".to_vec()], false);
    let publish = Publish::new(false, QoS::AtMost, false, topic, None, b"hi".to_vec());
    let bytes = Packet::Publish(publish).try_to_bytes(KEY).unwrap();
    assert_eq!(bytes[0], 0b0011_0000);
    assert_eq!(bytes[1], 8);
    assert_eq!(bytes.len(), 2 + 8 + 12 + 16);
}

#[test]
fn test_packet_to_bytes_matches_own_bytes() {
    let topic = TopicName::new(vec![b"a".to_vec(), b"b".to_vec()], false);
    let publish = Publish::new(false, QoS::AtLeast, true, topic, Some(9), b"hello".to_vec());
    let own = publish.to_bytes(KEY);
    let sent = Packet::Publish(publish).to_bytes(KEY);
    assert_eq!(sent.len(), own.len());
    assert_eq!(sent[..2], own[..2]);
    assert_eq!(decrypt(&sent[2..], KEY).unwrap(), decrypt(&own[2..], KEY).unwrap());

    let own = Puback::new(Some(5)).to_bytes(KEY);
    let sent = Packet::Puback(Puback::new(Some(5))).to_bytes(KEY);
    assert_eq!(sent.len(), own.len());
    assert_eq!(sent[..2], own[..2]);
    assert_eq!(decrypt(&sent[2..], KEY).unwrap(), decrypt(&own[2..], KEY).unwrap());

    assert_eq!(Packet::Pingreq(Pingreq::new()).to_bytes(KEY), Pingreq::new().to_bytes(KEY));
}
