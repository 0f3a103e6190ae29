use mqtt::model::components::encoded_string::EncodedString;
use mqtt::model::components::fixed_header::FixedHeader;
use mqtt::model::components::login::Login;
use mqtt::model::components::qos::QoS;
use mqtt::model::components::remaining_length::RemainingLength;
use mqtt::model::components::topic_level::{TopicLevel, MULTI_LEVEL_WILDCARD, SINGLE_LEVEL_WILDCARD};
use mqtt::model::components::topic_name::TopicName;
use mqtt::stream::ByteStream;

fn from_slice(bytes: &[u8]) -> ByteStream {
    let encoded_string = EncodedString::new(bytes.to_vec());
    ByteStream::new(encoded_string.to_bytes())
}

#[test]
fn test_encoded_string_new() {
    let content = vec![0x00, 0x01, 0x02, 0x03];
    let encoded_string = EncodedString::new(content.clone());

    let bytes = encoded_string.to_bytes();
    assert_eq!(u16::from_be_bytes([bytes[0], bytes[1]]), content.len() as u16);
    assert_eq!(encoded_string.content(), &content);
}

#[test]
fn test_encoded_string_from_bytes() {
    let content = vec![0x00, 0x01, 0x02, 0x03];
    let mut bytes = vec![];
    bytes.extend(&(content.len() as u16).to_be_bytes());
    bytes.extend(&content);

    let mut stream = ByteStream::new(bytes);
    let encoded_string = EncodedString::from_bytes(&mut stream).unwrap();

    assert_eq!(encoded_string.length() - 2, content.len());
    assert_eq!(encoded_string.content(), &content);
}

#[test]
fn test_encoded_string_from_string() {
    let string = String::from("test");
    let encoded_string = EncodedString::from_string(&string);

    assert_eq!(encoded_string.length() - 2, string.len());
    assert_eq!(encoded_string.content(), string.as_bytes());
}

#[test]
fn test_encoded_string_to_bytes() {
    let content = vec![0x00, 0x01, 0x02, 0x03];
    let encoded_string = EncodedString::new(content.clone());

    let mut bytes = vec![];
    bytes.extend(&(content.len() as u16).to_be_bytes());
    bytes.extend(&content);

    assert_eq!(encoded_string.to_bytes(), bytes);
}

#[test]
fn test_encoded_string_length() {
    let content = vec![0x00, 0x01, 0x02, 0x03];
    let encoded_string = EncodedString::new(content.clone());

    assert_eq!(encoded_string.length(), 2 + content.len());
}

#[test]
fn test_encoded_string_content() {
    let content = vec![0x00, 0x01, 0x02, 0x03];
    let encoded_string = EncodedString::new(content.clone());

    assert_eq!(encoded_string.content(), &content);
}

#[test]
fn test_encoded_string_from_bytes_too_short() {
    let mut stream = ByteStream::new(vec![0x00, 0x05, b'a', b'b']);
    assert!(EncodedString::from_bytes(&mut stream).is_err());
}

#[test]
fn test_fixed_header_to_bytes() {
    let first_byte = 0b0001_0000;
    let remaining_length = RemainingLength::new(10);
    let fixed_header = FixedHeader::new(first_byte, remaining_length);

    let bytes = fixed_header.to_bytes();

    assert_eq!(bytes, vec![0b0001_0000, 10]);
}

#[test]
fn test_fixed_header_from_bytes() {
    let bytes = vec![0b0001_0000, 10];
    let mut stream = ByteStream::new(bytes);

    let fixed_header = FixedHeader::from_bytes(&mut stream).unwrap();

    assert_eq!(fixed_header.first_byte(), 0b0001_0000);
    assert_eq!(fixed_header.remaining_length().value(), 10);
}

#[test]
fn test_fixed_header_remaining_length_encrypted() {
    let connect = FixedHeader::new(0b0001_0000, RemainingLength::new(10));
    assert_eq!(connect.remaining_length_encrypted(), 38);

    let pingreq = FixedHeader::new(0b1100_0000, RemainingLength::new(0));
    assert_eq!(pingreq.remaining_length_encrypted(), 0);
}

#[test]
fn test_login_to_bytes() {
    let username = EncodedString::from_string(&"username".to_string());
    let password = Some(EncodedString::from_string(&"password".to_string()));
    let login = Login::new(username, password);

    let bytes = login.to_bytes();

    assert_eq!(
        bytes,
        vec![
            0x00, 8, b'u', b's', b'e', b'r', b'n', b'a', b'm', b'e', 0x00, 8, b'p', b'a', b's',
            b's', b'w', b'o', b'r', b'd'
        ]
    );
}

#[test]
fn test_login_from_bytes() {
    let mut stream = ByteStream::new(b"\x00\x08username\x00\x08password".to_vec());
    let login = Login::from_bytes(&mut stream, true).unwrap();

    assert_eq!(
        login.username(),
        &EncodedString::from_string(&"username".to_string())
    );
    assert_eq!(
        login.password(),
        Some(&EncodedString::from_string(&"password".to_string()))
    );
}

#[test]
fn test_login_from_bytes_without_password() {
    let mut stream = ByteStream::new(b"\x00\x08username\x00\x08password".to_vec());
    let login = Login::from_bytes(&mut stream, false).unwrap();

    assert_eq!(login.password(), None);
    assert_eq!(stream.remaining(), 10);
}

#[test]
fn test_qos_to_byte() {
    assert_eq!(QoS::AtMost.to_byte(), 0x00);
    assert_eq!(QoS::AtLeast.to_byte(), 0x01);
    assert_eq!(QoS::Exactly.to_byte(), 0x02);
}

#[test]
fn test_qos_from_byte() {
    assert_eq!(QoS::from_byte(0x00).unwrap(), QoS::AtMost);
    assert_eq!(QoS::from_byte(0x01).unwrap(), QoS::AtLeast);
    assert_eq!(QoS::from_byte(0x02).unwrap(), QoS::Exactly);
}

#[test]
fn test_qos_from_invalid_byte() {
    assert!(QoS::from_byte(0x03).is_err());
}

#[test]
fn test_remaining_length_to_bytes() {
    let remaining_length = RemainingLength::new(268_435_455);
    let bytes = remaining_length.to_bytes();
    assert_eq!(bytes, vec![0xFF, 0xFF, 0xFF, 0x7F]);
}

#[test]
fn test_remaining_length_roundtrip_three_bytes() {
    let remaining_length = RemainingLength::new(2_097_151);
    let mut stream = ByteStream::new(remaining_length.to_bytes());
    assert_eq!(RemainingLength::from_bytes(&mut stream).unwrap().value(), 2_097_151);
    assert_eq!(remaining_length.length(), 3);
}

#[test]
fn test_remaining_length_four_bytes_roundtrip() {
    for value in [2_097_152, 268_435_455] {
        let remaining_length = RemainingLength::new(value);
        let mut bytes = remaining_length.to_bytes();
        assert_eq!(bytes.len(), 4);
        bytes.push(0xAB);
        let mut stream = ByteStream::new(bytes);
        assert_eq!(RemainingLength::from_bytes(&mut stream).unwrap().value(), value as usize);
        assert_eq!(stream.remaining(), 1);
    }
}

#[test]
fn test_remaining_length_clamped() {
    let remaining_length = RemainingLength::new(u32::MAX);
    assert_eq!(remaining_length.value(), 268_435_455);
}

#[test]
fn test_from_bytes_valid() {
    let data: Vec<u8> = vec![0x96, 0x01];
    let mut cursor = ByteStream::new(data);
    let result = RemainingLength::from_bytes(&mut cursor).unwrap();
    assert_eq!(result, RemainingLength::new(150));
}

#[test]
fn test_from_bytes_malformed_length() {
    let data: Vec<u8> = vec![0xFF, 0xFF, 0xFF, 0xFF, 0x07];
    let mut cursor = ByteStream::new(data);
    let result = RemainingLength::from_bytes(&mut cursor);
    assert!(result.is_err());
}

#[test]
fn test_from_bytes_incomplete_stream() {
    let data: Vec<u8> = vec![0x96];
    let mut cursor = ByteStream::new(data);
    let result = RemainingLength::from_bytes(&mut cursor);
    assert!(result.is_err());
}

#[test]
fn test_valid_literal() {
    let bytes = b"home".to_vec();
    let topic_level = TopicLevel::from_bytes(bytes.clone()).unwrap();

    assert_eq!(topic_level, TopicLevel::Literal(bytes));
}

#[test]
fn test_valid_multi_level_wildcard() {
    let bytes = vec![MULTI_LEVEL_WILDCARD];
    let topic_level = TopicLevel::from_bytes(bytes.clone()).unwrap();

    assert_eq!(topic_level, TopicLevel::MultiLevelWildcard);
}

#[test]
fn test_valid_single_level_wildcard() {
    let bytes = vec![SINGLE_LEVEL_WILDCARD];
    let topic_level = TopicLevel::from_bytes(bytes.clone()).unwrap();

    assert_eq!(topic_level, TopicLevel::SingleLevelWildcard);
}

#[test]
fn test_invalid_use_of_wildcards() {
    {
        let bytes = b"home+".to_vec();
        let topic_level = TopicLevel::from_bytes(bytes.clone());

        assert!(topic_level.is_err());
    }

    {
        let bytes = b"+home".to_vec();
        let topic_level = TopicLevel::from_bytes(bytes.clone());

        assert!(topic_level.is_err());
    }

    {
        let bytes = b"home#".to_vec();
        let topic_level = TopicLevel::from_bytes(bytes.clone());

        assert!(topic_level.is_err());
    }

    {
        let bytes = b"#home".to_vec();
        let topic_level = TopicLevel::from_bytes(bytes.clone());

        assert!(topic_level.is_err());
    }

    {
        let bytes = b"#+".to_vec();
        let topic_level = TopicLevel::from_bytes(bytes.clone());

        assert!(topic_level.is_err());
    }
}

#[test]
fn test_topic_level_roundtrip() {
    let level = TopicLevel::from_bytes(b"kitchen".to_vec()).unwrap();
    assert_eq!(level.to_bytes(), b"kitchen".to_vec());
    assert_eq!(level.length(), 7);
    assert_eq!(TopicLevel::MultiLevelWildcard.to_bytes(), vec![MULTI_LEVEL_WILDCARD]);
}

#[test]
fn test_valid_topic_names() {
    let bytes = &mut from_slice(b"home/livingroom");
    assert!(TopicName::from_bytes(bytes).is_ok());

    let bytes = &mut from_slice(b"/");
    assert!(TopicName::from_bytes(bytes).is_ok());
}

#[test]
fn test_invalid_topic_names() {
    let bytes = &mut from_slice(b"home/+/livingroom");
    assert!(TopicName::from_bytes(bytes).is_err());

    let bytes = &mut from_slice(b"home/livingroom/#");
    assert!(TopicName::from_bytes(bytes).is_err());

    let bytes = &mut from_slice(b"home/livingroom#");
    assert!(TopicName::from_bytes(bytes).is_err());

    let bytes = &mut from_slice(b"+home/livingroom");
    assert!(TopicName::from_bytes(bytes).is_err());
}

#[test]
fn test_length() {
    let bytes = &mut from_slice(b"home/livingroom");
    let topic_name = TopicName::from_bytes(bytes).unwrap();
    assert_eq!(topic_name.length(), 17);

    let bytes = &mut from_slice(b"/");
    let topic_name = TopicName::from_bytes(bytes).unwrap();
    assert_eq!(topic_name.length(), 3);
}

#[test]
fn test_server_reserved() {
    let bytes = &mut from_slice(b"$home/livingroom");
    let topic_name = TopicName::from_bytes(bytes).unwrap();
    assert!(topic_name.server_reserved());

    let bytes = &mut from_slice(b"home/livingroom");
    let topic_name = TopicName::from_bytes(bytes).unwrap();
    assert!(!topic_name.server_reserved());

    let bytes = &mut from_slice(b"home/$livingroom");
    let topic_name = TopicName::from_bytes(bytes).unwrap();
    assert!(!topic_name.server_reserved());
}

#[test]
fn test_topic_name_levels_and_bytes() {
    let bytes = &mut from_slice(b"home/livingroom");
    let topic_name = TopicName::from_bytes(bytes).unwrap();
    assert_eq!(topic_name.levels(), &vec![b"home".to_vec(), b"livingroom".to_vec()]);
    assert_eq!(topic_name.to_bytes(), EncodedString::new(b"home/livingroom".to_vec()).to_bytes());
}

#[test]
fn test_topic_name_serialize_deserialize() {
    let topic_name = TopicName::new(vec![b"home".to_vec(), b"livingroom".to_vec()], false);
    let text = topic_name.serialize();
    assert_eq!(text, "home/livingroom");
    assert_eq!(TopicName::deserialize(&text).unwrap(), topic_name);
}
