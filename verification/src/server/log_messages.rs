use vstd::prelude::*;

use crate::model::components::topic_filter::{TopicFilter, TopicFilterModel};
use crate::model::components::topic_level::{topic_level_bytes, TopicLevelModel};
use crate::model::components::topic_name::TopicNameModel;
use crate::model::packets::publish::Publish;
use crate::model::packets::subscribe::Subscribe;
use crate::model::packets::unsubscribe::Unsubscribe;
use crate::text::{join_chars, lossy_string, utf8_lossy, utf8_text};

verus! {

/// The level of the entries that report what went well.
pub open spec fn info_level() -> Seq<char> {
    "INFO"@
}

/// The level of the entries that report what went wrong.
pub open spec fn error_level() -> Seq<char> {
    "ERROR"@
}

/// The text of a topic filter: its levels as text, joined by slashes.
pub open spec fn filter_text(f: TopicFilterModel) -> Seq<char> {
    join_chars(f.levels.map_values(|level: TopicLevelModel| utf8_lossy(topic_level_bytes(level))), "/"@)
}

/// The text of a topic name: its levels as text, joined by slashes.
pub open spec fn topic_text(t: TopicNameModel) -> Seq<char> {
    join_chars(t.levels.map_values(|level: Seq<u8>| utf8_lossy(level)), "/"@)
}

/// The filters as text, each followed by ", ".
pub open spec fn filters_text(filters: Seq<TopicFilterModel>) -> Seq<char>
    decreases filters.len(),
{
    if filters.len() == 0 {
        Seq::<char>::empty()
    } else {
        filters_text(filters.drop_last()) + filter_text(filters.last()) + ", "@
    }
}

/// The entry written to the log: "[timestamp] LEVEL: message".
pub open spec fn log_entry_text(timestamp: Seq<char>, level: Seq<char>, message: Seq<char>) -> Seq<char> {
    "["@ + timestamp + "] "@ + level + ": "@ + message
}

/// Builds the entry written to the log: "[timestamp] LEVEL: message".
pub fn log_entry(timestamp: &str, level: &str, message: &str) -> (entry: String)
    ensures
        entry@ == log_entry_text(timestamp@, level@, message@),
{
    let mut entry = String::from_str("[");
    entry.append(timestamp);
    entry.append("] ");
    entry.append(level);
    entry.append(": ");
    entry.append(message);
    entry
}

/// Appends the filters as text, each followed by ", ".
fn append_filters_text(text: &mut String, filters: &Vec<TopicFilter>)
    ensures
        final(text)@ == old(text)@ + filters_text(filters@.map_values(|f: TopicFilter| f@)),
{
    let ghost all = filters@.map_values(|f: TopicFilter| f@);
    let ghost start = text@;
    let mut i: usize = 0;
    while i < filters.len()
        invariant
            i <= filters.len(),
            all == filters@.map_values(|f: TopicFilter| f@),
            text@ == start + filters_text(all.take(i as int)),
        decreases filters.len() - i,
    {
        assert(all.take(i + 1).drop_last() =~= all.take(i as int));
        text.append(filters[i].serialize().as_str());
        text.append(", ");
        i = i + 1;
        assert(text@ =~= start + filters_text(all.take(i as int)));
    }
    assert(all.take(i as int) =~= all);
}

/// The filters of subscriptions.
pub open spec fn subscription_filters(topics: Seq<(TopicFilterModel, crate::model::components::qos::QoS)>) -> Seq<TopicFilterModel> {
    topics.map_values(|t: (TopicFilterModel, crate::model::components::qos::QoS)| t.0)
}

/// What is logged when a client subscribes: its identifier and the filters, or, when the
/// identifier is not UTF-8, that it could not be converted.
pub open spec fn subscription_message_text(client_id: Seq<u8>, filters: Seq<TopicFilterModel>) -> Seq<char> {
    if vstd::utf8::valid_utf8(client_id) {
        "Client "@ + vstd::utf8::decode_utf8(client_id) + " subscribed to topics "@ + filters_text(filters)
    } else {
        "Failed to convert client ID to string"@
    }
}

/// What is logged when a client subscribes.
pub fn subscription_message(client_id: &[u8], subscribe_packet: &Subscribe) -> (message: String)
    ensures
        message@ == subscription_message_text(client_id@, subscription_filters(subscribe_packet@.topics)),
{
    match utf8_text(client_id) {
        None => String::from_str("Failed to convert client ID to string"),
        Some(client_id_str) => {
            let topics = subscribe_packet.topics();
            let mut filters: Vec<TopicFilter> = Vec::new();
            let mut i: usize = 0;
            while i < topics.len()
                invariant
                    i <= topics.len(),
                    filters@.len() == i,
                    forall|j: int| 0 <= j < i ==> #[trigger] filters@[j]@ == topics@[j].0@,
                decreases topics.len() - i,
            {
                filters.push(topics[i].0.clone());
                i = i + 1;
            }
            assert(filters@.map_values(|f: TopicFilter| f@) =~= subscription_filters(subscribe_packet@.topics));
            let mut message = String::from_str("Client ");
            message.append(client_id_str.as_str());
            message.append(" subscribed to topics ");
            append_filters_text(&mut message, &filters);
            message
        },
    }
}

/// What is logged when a client unsubscribes.
pub fn unsubscription_message(client_id: &[u8], unsubscribe_packet: &Unsubscribe) -> (message: String)
    ensures
        message@ == "Client "@ + utf8_lossy(client_id@) + " unsubscribed to topics "@ + filters_text(unsubscribe_packet@.topics),
{
    let mut message = String::from_str("Client ");
    message.append(lossy_string(client_id).as_str());
    message.append(" unsubscribed to topics ");
    append_filters_text(&mut message, unsubscribe_packet.topics());
    message
}

/// What is logged when a client publishes.
pub fn publish_message(client_id: &[u8], publish_packet: &Publish) -> (message: String)
    ensures
        message@ == "Client "@ + utf8_lossy(client_id@) + " published message "@ + utf8_lossy(publish_packet@.message)
            + " to topic "@ + topic_text(publish_packet@.topic),
{
    let mut message = String::from_str("Client ");
    message.append(lossy_string(client_id).as_str());
    message.append(" published message ");
    message.append(lossy_string(publish_packet.message().as_slice()).as_str());
    message.append(" to topic ");
    message.append(publish_packet.topic().serialize().as_str());
    message
}

/// What is logged about a client that the server does not know.
pub fn client_does_not_exist_message(client_id: &[u8]) -> (message: String)
    ensures
        message@ == "Client "@ + utf8_lossy(client_id@) + " does not exist"@,
{
    let mut message = String::from_str("Client ");
    message.append(lossy_string(client_id).as_str());
    message.append(" does not exist");
    message
}

/// What is logged when a packet was sent to a client.
pub fn info_sent_packet_message(packet_type: &str, client_id: &[u8]) -> (message: String)
    ensures
        message@ == "Sent "@ + packet_type@ + " packet to client "@ + utf8_lossy(client_id@),
{
    let mut message = String::from_str("Sent ");
    message.append(packet_type);
    message.append(" packet to client ");
    message.append(lossy_string(client_id).as_str());
    message
}

/// What is logged when a packet could not be sent to a client.
pub fn error_sending_packet_message(packet_type: &str, client_id: &[u8]) -> (message: String)
    ensures
        message@ == "Error sending "@ + packet_type@ + " packet to client "@ + utf8_lossy(client_id@),
{
    let mut message = String::from_str("Error sending ");
    message.append(packet_type);
    message.append(" packet to client ");
    message.append(lossy_string(client_id).as_str());
    message
}

/// What is logged when the connection to a client is missing.
pub fn error_getting_stream_message(client_id: &[u8], packet_type: &str) -> (message: String)
    ensures
        message@ == "Error getting stream for client "@ + utf8_lossy(client_id@) + " when sending "@ + packet_type@
            + " packet"@,
{
    let mut message = String::from_str("Error getting stream for client ");
    message.append(lossy_string(client_id).as_str());
    message.append(" when sending ");
    message.append(packet_type);
    message.append(" packet");
    message
}

/// What is logged when a message was sent to a client.
pub fn sent_message_message(message: String, client_id: String) -> (text: String)
    ensures
        text@ == "Sent message: "@ + message@ + " to client "@ + client_id@,
{
    let mut text = String::from_str("Sent message: ");
    text.append(message.as_str());
    text.append(" to client ");
    text.append(client_id.as_str());
    text
}

/// What is logged when a message could not be sent to a client.
pub fn sending_message_error_message(message: String, client_id: String) -> (text: String)
    ensures
        text@ == "Error sending message: "@ + message@ + " to client "@ + client_id@,
{
    let mut text = String::from_str("Error sending message: ");
    text.append(message.as_str());
    text.append(" to client ");
    text.append(client_id.as_str());
    text
}

/// What is logged when a client was registered.
pub fn client_registrated_message(client_id: &[u8]) -> (message: String)
    ensures
        message@ == "Client with id "@ + utf8_lossy(client_id@) + " has been registered successfully"@,
{
    let mut message = String::from_str("Client with id ");
    message.append(lossy_string(client_id).as_str());
    message.append(" has been registered successfully");
    message
}

} // verus!
