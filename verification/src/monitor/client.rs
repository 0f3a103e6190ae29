use vstd::prelude::*;

use crate::bytes::{byte_seqs, join_bytes, split_bytes, split_on};
use crate::model::components::qos::QoS;
use crate::model::components::topic_filter::{TopicFilter, TopicFilterModel};
use crate::model::components::topic_level::{topic_level_of_bytes, TopicLevel, TopicLevelModel};
use crate::model::components::topic_name::{TopicName, TopicNameModel};
use crate::model::components::FORWARD_SLASH;
use crate::model::packets::publish::{Publish, PublishModel};
use crate::model::packets::subscribe::{Subscribe, SubscribeModel};
use crate::monitor::channels_tasks::{drone_message, DroneRegistration, IncidentRegistration};
use crate::server::registration::{
    admin_id, client_register_level, client_register_level_bytes, reserved_topic_request, ReservedTopicRequestModel,
    SEPARATOR,
};
use crate::text::{lemma_encode_utf8_ascii_byte, lemma_encode_utf8_concat, lossy_string, utf8_lossy};

verus! {

/// The publish that registers a drone: on the server-reserved topic "$client-register", at
/// least once, not retained, carrying the registration message as UTF-8 bytes.
pub open spec fn drone_registration_publish(
    id: Seq<char>,
    username: Seq<char>,
    password: Seq<char>,
    package_identifier: u16,
) -> PublishModel {
    PublishModel {
        dup: false,
        qos: QoS::AtLeast,
        retain: false,
        topic: TopicNameModel { levels: seq![client_register_level()], server_reserved: true },
        package_identifier: Some(package_identifier),
        message: vstd::utf8::encode_utf8(drone_message(id, username, password)),
    }
}

/// Builds the publish that registers a drone with the server.
pub fn register_drone(drone_registration: DroneRegistration, package_identifier: u16) -> (publish: Option<Publish>)
    ensures
        publish matches Some(p) && p@ == drone_registration_publish(
            drone_registration.id@,
            drone_registration.username@,
            drone_registration.password@,
            package_identifier,
        ),
{
    let topic_name = TopicName::new(vec![client_register_level_bytes()], true);
    let text = drone_registration.build_drone_message();
    let message = vstd::slice::slice_to_vec(text.as_str().as_bytes());
    let dup = false;
    let qos = QoS::AtLeast;
    let retain = false;
    let package_identifier = Some(package_identifier);
    let publish = Publish::new(dup, qos, retain, topic_name, package_identifier, message);
    assert(publish@.topic.levels =~= seq![client_register_level()]);
    Some(publish)
}

/// The server reads back the credentials that the monitor registers: when the admin client
/// publishes the registration of a drone whose identifier, username and password hold no `;`,
/// the server is asked to register exactly those three fields, as UTF-8 bytes.
pub proof fn lemma_drone_registration_read_back(
    id: Seq<char>,
    username: Seq<char>,
    password: Seq<char>,
    package_identifier: u16,
)
    requires
        !id.contains(';'),
        !username.contains(';'),
        !password.contains(';'),
    ensures
        ({
            let p = drone_registration_publish(id, username, password, package_identifier);
            reserved_topic_request(p.topic, p.message, admin_id()) == (ReservedTopicRequestModel::Register {
                client_id: vstd::utf8::encode_utf8(id),
                username: vstd::utf8::encode_utf8(username),
                password: vstd::utf8::encode_utf8(password),
            })
        }),
{
    let sep = ";"@;
    reveal_strlit(";");
    assert(sep == seq![';']);
    assert(vstd::utf8::encode_utf8(sep) =~= seq![SEPARATOR]) by {
        assert(sep.drop_first() =~= Seq::<char>::empty());
        let c = ';' as u32;
        assert(c == 0x3B);
        assert(c & 0x7F == 0x3B) by (bit_vector)
            requires
                c == 0x3B,
        ;
        assert(vstd::utf8::has_width_1_encoding(c));
        assert(vstd::utf8::encode_scalar(c) =~= seq![SEPARATOR]);
        assert(vstd::utf8::encode_utf8(sep.drop_first()) =~= Seq::<u8>::empty());
        assert(vstd::utf8::encode_utf8(sep) == vstd::utf8::encode_scalar(sep[0] as u32) + vstd::utf8::encode_utf8(sep.drop_first()));
    }
    let e_id = vstd::utf8::encode_utf8(id);
    let e_user = vstd::utf8::encode_utf8(username);
    let e_pass = vstd::utf8::encode_utf8(password);
    lemma_encode_utf8_concat(id, sep);
    lemma_encode_utf8_concat(id + sep, username);
    lemma_encode_utf8_concat(id + sep + username, sep);
    lemma_encode_utf8_concat(id + sep + username + sep, password);
    let message = vstd::utf8::encode_utf8(drone_message(id, username, password));
    assert(message =~= e_id + seq![SEPARATOR] + e_user + seq![SEPARATOR] + e_pass);
    let fields = seq![e_id, e_user, e_pass];
    assert(join_bytes(fields, SEPARATOR) =~= message) by {
        let two = seq![e_id, e_user];
        let one = seq![e_id];
        assert(fields.drop_last() =~= two);
        assert(two.drop_last() =~= one);
        assert(join_bytes(one, SEPARATOR) == e_id);
        assert(join_bytes(two, SEPARATOR) == join_bytes(one, SEPARATOR).push(SEPARATOR) + e_user);
        assert(join_bytes(fields, SEPARATOR) == join_bytes(two, SEPARATOR).push(SEPARATOR) + e_pass);
    }
    lemma_encode_utf8_ascii_byte(id, ';');
    lemma_encode_utf8_ascii_byte(username, ';');
    lemma_encode_utf8_ascii_byte(password, ';');
    assert((';' as u32) < 0x80 && (';' as u8) == SEPARATOR);
    crate::bytes::lemma_split_join(fields, SEPARATOR);
    assert(split_bytes(message, SEPARATOR) == fields);
}

/// The levels of the pieces that can be read as levels, in order; the others are left out.
pub open spec fn readable_levels(pieces: Seq<Seq<u8>>) -> Seq<TopicLevelModel>
    decreases pieces.len(),
{
    if pieces.len() == 0 {
        Seq::<TopicLevelModel>::empty()
    } else {
        match topic_level_of_bytes(pieces.last()) {
            Ok(level) => readable_levels(pieces.drop_last()).push(level),
            Err(_) => readable_levels(pieces.drop_last()),
        }
    }
}

/// The filter that the monitor makes of a topic written as text: the pieces between slashes
/// that can be read as levels.
pub open spec fn text_filter(text: Seq<char>) -> TopicFilterModel {
    TopicFilterModel {
        levels: readable_levels(split_bytes(vstd::utf8::encode_utf8(text), FORWARD_SLASH)),
        server_reserved: false,
    }
}

/// The topics the monitor subscribes to, to follow the cameras, the drones and the incidents.
pub open spec fn monitor_topics() -> Seq<Seq<char>> {
    seq![
        "camera-data"@,
        "camera-update"@,
        "attending-incident/+"@,
        "drone-data/+"@,
        "ready-incident/+"@,
        "detected-incident/+"@,
    ]
}

/// The subscription of the monitor: each of its topics, at least once, under packet
/// identifier 1.
pub open spec fn monitor_subscription() -> SubscribeModel {
    SubscribeModel {
        packet_identifier: 1,
        topics: monitor_topics().map_values(|t: Seq<char>| (text_filter(t), QoS::AtLeast)),
    }
}

/// The filter of a topic written as text: the pieces between slashes that can be read as
/// levels.
fn filter_of_text(text: &str) -> (filter: TopicFilter)
    ensures
        filter@ == text_filter(text@),
{
    let pieces = split_on(text.as_bytes(), FORWARD_SLASH);
    let ghost all = byte_seqs(pieces@);
    let mut levels: Vec<TopicLevel> = Vec::new();
    let mut i: usize = 0;
    while i < pieces.len()
        invariant
            i <= pieces.len(),
            all == byte_seqs(pieces@),
            levels@.map_values(|level: TopicLevel| level@) == readable_levels(all.take(i as int)),
        decreases pieces.len() - i,
    {
        assert(all.take(i + 1).drop_last() =~= all.take(i as int));
        assert(all.take(i + 1).last() == pieces@[i as int]@);
        let ghost before = levels@.map_values(|level: TopicLevel| level@);
        let piece = vstd::slice::slice_to_vec(pieces[i].as_slice());
        if let Ok(level) = TopicLevel::from_bytes(piece) {
            levels.push(level);
            assert(levels@.map_values(|level: TopicLevel| level@) =~= before.push(level@));
        }
        i = i + 1;
    }
    assert(all.take(i as int) =~= all);
    TopicFilter::new(levels, false)
}

/// Builds the SUBSCRIBE packet with which the monitor follows the cameras, the drones and the
/// incidents.
pub fn monitor_subscribe_packet() -> (subscribe: Subscribe)
    ensures
        subscribe@ == monitor_subscription(),
{
    let topics: Vec<&str> = vec![
        "camera-data",
        "camera-update",
        "attending-incident/+",
        "drone-data/+",
        "ready-incident/+",
        "detected-incident/+",
    ];
    assert(topics@.map_values(|t: &str| t@) =~= monitor_topics());
    let ghost texts = monitor_topics();
    let mut topic_filters: Vec<(TopicFilter, QoS)> = Vec::new();
    let mut i: usize = 0;
    while i < topics.len()
        invariant
            i <= topics.len(),
            topics@.len() == texts.len(),
            forall|j: int| 0 <= j < texts.len() ==> #[trigger] topics@[j]@ == texts[j],
            topic_filters@.len() == i,
            forall|j: int| 0 <= j < i ==> (#[trigger] topic_filters@[j]).0@ == text_filter(texts[j]),
            forall|j: int| 0 <= j < i ==> (#[trigger] topic_filters@[j]).1 == QoS::AtLeast,
        decreases topics.len() - i,
    {
        assert(topics@.map_values(|t: &str| t@)[i as int] == texts[i as int]);
        let text = topics[i];
        assert(text@ == texts[i as int]);
        let topic_filter = filter_of_text(text);
        let ghost prev = topic_filters@;
        topic_filters.push((topic_filter, QoS::AtLeast));
        assert forall|j: int| 0 <= j < i + 1 implies (#[trigger] topic_filters@[j]).0@ == text_filter(texts[j])
            && topic_filters@[j].1 == QoS::AtLeast by {
            if j < i {
                assert(topic_filters@[j] == prev[j]);
            }
        }
        i = i + 1;
    }
    let subscribe = Subscribe::new(1, topic_filters);
    assert(subscribe@.topics =~= monitor_subscription().topics);
    subscribe
}

/// The fields of the data of an incident that a camera detected: the text of the message,
/// encoded, split at `;`, each piece read as text.
pub open spec fn detected_fields(message: Seq<u8>) -> Seq<Seq<char>> {
    split_bytes(vstd::utf8::encode_utf8(utf8_lossy(message)), SEPARATOR).map_values(|piece: Seq<u8>| utf8_lossy(piece))
}

/// The name of an incident that a camera detected with the label.
pub open spec fn detected_name(label: Seq<char>) -> Seq<char> {
    "Autodetected incident ("@ + label + ")"@
}

/// The description of an incident that the camera detected.
pub open spec fn detected_description(camera_id: Seq<char>) -> Seq<char> {
    "By AWS Rekonginition services - Camera "@ + camera_id
}

/// Whether a publish on "detected-incident/<camera>" can be read as a detected incident: its
/// topic names the camera and its data has a position and a label.
pub open spec fn detected_incident_readable(topic: TopicNameModel, message: Seq<u8>) -> bool {
    topic.levels.len() >= 2 && detected_fields(message).len() >= 3
}

/// The registration form that a detected incident fills in: named after its label, described
/// by the camera that saw it, at the position the data gives.
pub open spec fn detected_registration(
    registration: IncidentRegistration,
    topic: TopicNameModel,
    message: Seq<u8>,
) -> bool {
    let fields = detected_fields(message);
    &&& registration.name@ == detected_name(fields[2])
    &&& registration.description@ == detected_description(utf8_lossy(topic.levels[1]))
    &&& registration.x@ == fields[0]
    &&& registration.y@ == fields[1]
}

/// Handles the incident that the camera system detected: the registration form that the
/// monitor shows for it.
pub fn detected_incident(publish: &Publish) -> (registration: IncidentRegistration)
    requires
        detected_incident_readable(publish@.topic, publish@.message),
    ensures
        detected_registration(registration, publish@.topic, publish@.message),
{
    let topic_levels = publish.topic().levels();
    let camera_id = lossy_string(topic_levels[1].as_slice());
    let mut description = String::from_str("By AWS Rekonginition services - Camera ");
    description.append(camera_id.as_str());

    let data = lossy_string(publish.message().as_slice());
    let splitted_data = split_on(data.as_str().as_bytes(), SEPARATOR);
    let ghost pieces = byte_seqs(splitted_data@);
    assert(detected_fields(publish@.message) == pieces.map_values(|piece: Seq<u8>| utf8_lossy(piece)));
    assert(pieces[0] == splitted_data@[0]@ && pieces[1] == splitted_data@[1]@ && pieces[2] == splitted_data@[2]@);
    let x = lossy_string(splitted_data[0].as_slice());
    let y = lossy_string(splitted_data[1].as_slice());
    let label = lossy_string(splitted_data[2].as_slice());

    let mut name = String::from_str("Autodetected incident (");
    name.append(label.as_str());
    name.append(")");

    IncidentRegistration { name, description, x, y }
}

/// Reads the incident that the camera system detected, or gives `None` when the topic does
/// not name the camera or the data lacks a position or a label.
pub fn try_detected_incident(publish: &Publish) -> (registration: Option<IncidentRegistration>)
    ensures
        match registration {
            Some(r) => detected_incident_readable(publish@.topic, publish@.message) && detected_registration(
                r,
                publish@.topic,
                publish@.message,
            ),
            None => !detected_incident_readable(publish@.topic, publish@.message),
        },
{
    if publish.topic().levels().len() < 2 {
        return None;
    }
    let data = lossy_string(publish.message().as_slice());
    let splitted_data = split_on(data.as_str().as_bytes(), SEPARATOR);
    assert(detected_fields(publish@.message).len() == splitted_data@.len());
    if splitted_data.len() < 3 {
        return None;
    }
    Some(detected_incident(publish))
}

} // verus!
