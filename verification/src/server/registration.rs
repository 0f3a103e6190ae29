use vstd::prelude::*;

use crate::bytes::{byte_seqs, bytes_equal, split_bytes, split_on};
use crate::model::components::topic_name::TopicNameModel;
use crate::model::packets::publish::{Publish, PublishModel};

verus! {

/// The byte that separates the fields of a registration message: `;`.
pub const SEPARATOR: u8 = 0x3B;

/// The only level of the topic on which clients are registered: "$client-register".
pub open spec fn client_register_level() -> Seq<u8> {
    seq![0x24u8, 0x63u8, 0x6Cu8, 0x69u8, 0x65u8, 0x6Eu8, 0x74u8, 0x2Du8, 0x72u8, 0x65u8, 0x67u8, 0x69u8, 0x73u8, 0x74u8, 0x65u8, 0x72u8]
}

/// The bytes of "$client-register".
pub fn client_register_level_bytes() -> (bytes: Vec<u8>)
    ensures
        bytes@ == client_register_level(),
{
    let bytes = vec![0x24u8, 0x63u8, 0x6Cu8, 0x69u8, 0x65u8, 0x6Eu8, 0x74u8, 0x2Du8, 0x72u8, 0x65u8, 0x67u8, 0x69u8, 0x73u8, 0x74u8, 0x65u8, 0x72u8];
    assert(bytes@ =~= client_register_level());
    bytes
}

/// The identifier of the only client allowed to publish on the server-reserved topics: "admin".
pub open spec fn admin_id() -> Seq<u8> {
    seq![0x61u8, 0x64u8, 0x6Du8, 0x69u8, 0x6Eu8]
}

/// The bytes of "admin".
pub fn admin_id_bytes() -> (bytes: Vec<u8>)
    ensures
        bytes@ == admin_id(),
{
    let bytes = vec![0x61u8, 0x64u8, 0x6Du8, 0x69u8, 0x6Eu8];
    assert(bytes@ =~= admin_id());
    bytes
}

/// What a publish on a server-reserved topic asks of the server.
#[derive(Debug, PartialEq)]
pub enum ReservedTopicRequest {
    /// The publisher is not the admin client: nothing is done.
    NotAdmin,
    /// The topic is not the registration topic: nothing is done.
    InvalidTopic,
    /// The message does not have exactly three fields.
    InvalidRegistration,
    /// Register a client with these credentials.
    Register { client_id: Vec<u8>, username: Vec<u8>, password: Vec<u8> },
}

/// The value of a [`ReservedTopicRequest`].
pub enum ReservedTopicRequestModel {
    NotAdmin,
    InvalidTopic,
    InvalidRegistration,
    Register { client_id: Seq<u8>, username: Seq<u8>, password: Seq<u8> },
}

impl View for ReservedTopicRequest {
    type V = ReservedTopicRequestModel;

    open spec fn view(&self) -> ReservedTopicRequestModel {
        match self {
            ReservedTopicRequest::NotAdmin => ReservedTopicRequestModel::NotAdmin,
            ReservedTopicRequest::InvalidTopic => ReservedTopicRequestModel::InvalidTopic,
            ReservedTopicRequest::InvalidRegistration => ReservedTopicRequestModel::InvalidRegistration,
            ReservedTopicRequest::Register { client_id, username, password } => ReservedTopicRequestModel::Register {
                client_id: client_id@,
                username: username@,
                password: password@,
            },
        }
    }
}

/// What the server makes of a publish on a server-reserved topic from `client_id`: only the
/// admin client may publish there, only on "$client-register", and its message must be three
/// fields separated by `;`: the identifier, the username and the password of the client to
/// register.
pub open spec fn reserved_topic_request(topic: TopicNameModel, message: Seq<u8>, client_id: Seq<u8>) -> ReservedTopicRequestModel {
    if client_id != admin_id() {
        ReservedTopicRequestModel::NotAdmin
    } else if !(topic.levels.len() == 1 && topic.levels[0] == client_register_level()) {
        ReservedTopicRequestModel::InvalidTopic
    } else {
        let fields = split_bytes(message, SEPARATOR);
        if fields.len() != 3 {
            ReservedTopicRequestModel::InvalidRegistration
        } else {
            ReservedTopicRequestModel::Register { client_id: fields[0], username: fields[1], password: fields[2] }
        }
    }
}

/// Decides what a publish on a server-reserved topic from `client_id` asks of the server.
pub fn read_reserved_topic_request(publish_packet: &Publish, client_id: &[u8]) -> (request: ReservedTopicRequest)
    ensures
        request@ == reserved_topic_request(publish_packet@.topic, publish_packet@.message, client_id@),
{
    let admin = admin_id_bytes();
    if !bytes_equal(client_id, admin.as_slice()) {
        return ReservedTopicRequest::NotAdmin;
    }

    let levels = publish_packet.topic().levels();
    let register = client_register_level_bytes();
    if !(levels.len() == 1 && bytes_equal(levels[0].as_slice(), register.as_slice())) {
        return ReservedTopicRequest::InvalidTopic;
    }

    let mut split = split_on(publish_packet.message().as_slice(), SEPARATOR);
    if split.len() != 3 {
        return ReservedTopicRequest::InvalidRegistration;
    }

    let ghost fields = byte_seqs(split@);
    let password = split.pop().unwrap();
    let username = split.pop().unwrap();
    let client_id = split.pop().unwrap();
    assert(client_id@ == fields[0] && username@ == fields[1] && password@ == fields[2]);

    ReservedTopicRequest::Register { client_id, username, password }
}

} // verus!
