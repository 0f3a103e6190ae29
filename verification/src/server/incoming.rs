use vstd::prelude::*;

use crate::model::packet::{Packet, PacketModel};
use crate::server::task_handler::{actions_view, Action, ActionModel, Task, TaskModel};
use crate::text::{lossy_string, utf8_lossy};

verus! {

/// The log entry about a packet received from a client.
pub open spec fn received_text(packet_type: Seq<char>, client_id: Seq<u8>) -> Seq<char> {
    "Received "@ + packet_type + " packet from client: "@ + utf8_lossy(client_id)
}

/// What the server does with a packet that a connected client sent: the entries it logs, the
/// task it hands to the task handler, and whether it keeps reading from the client. A PUBLISH,
/// SUBSCRIBE, UNSUBSCRIBE or PINGREQ becomes the matching task and the reading goes on; a
/// DISCONNECT disconnects the client; any other packet is logged as unsupported and
/// disconnects the client too.
pub open spec fn packet_handling(packet: PacketModel, client_id: Seq<u8>) -> (Seq<ActionModel>, TaskModel, bool) {
    match packet {
        PacketModel::Publish(p) => (
            seq![ActionModel::Info(received_text("Publish"@, client_id))],
            TaskModel::Publish(p, client_id),
            true,
        ),
        PacketModel::Subscribe(s) => (
            seq![ActionModel::Info(received_text("Subscribe"@, client_id))],
            TaskModel::SubscribeClient(s, client_id),
            true,
        ),
        PacketModel::Unsubscribe(u) => (
            seq![ActionModel::Info(received_text("Unsubscribe"@, client_id))],
            TaskModel::UnsubscribeClient(u, client_id),
            true,
        ),
        PacketModel::Pingreq => (
            seq![ActionModel::Info(received_text("Pingreq"@, client_id))],
            TaskModel::RespondPing(client_id),
            true,
        ),
        PacketModel::Disconnect => (
            seq![ActionModel::Info(received_text("Disconnect"@, client_id))],
            TaskModel::DisconnectClient(client_id),
            false,
        ),
        _ => (
            seq![ActionModel::Error("Unsupported packet type"@), ActionModel::Info("Disconnecting client"@)],
            TaskModel::DisconnectClient(client_id),
            false,
        ),
    }
}

/// The log entry about a packet received from a client.
fn received_message(packet_type: &str, client_id: &[u8]) -> (message: String)
    ensures
        message@ == received_text(packet_type@, client_id@),
{
    let mut message = String::from_str("Received ");
    message.append(packet_type);
    message.append(" packet from client: ");
    message.append(lossy_string(client_id).as_str());
    message
}

/// Handles a packet that a connected client sent by checking its type: what to log, the task
/// for the task handler, and whether to keep reading from the client.
pub fn handle_packet(packet: Packet, client_id: Vec<u8>) -> (handling: (Vec<Action>, Task, bool))
    ensures
        (actions_view(handling.0@), handling.1@, handling.2) == packet_handling(packet@, client_id@),
{
    let mut logs: Vec<Action> = Vec::new();
    let (task, keep_reading) = match packet {
        Packet::Publish(publish_packet) => {
            logs.push(Action::Info(received_message("Publish", client_id.as_slice())));
            (Task::Publish(publish_packet, client_id), true)
        },
        Packet::Subscribe(subscribe_packet) => {
            logs.push(Action::Info(received_message("Subscribe", client_id.as_slice())));
            (Task::SubscribeClient(subscribe_packet, client_id), true)
        },
        Packet::Unsubscribe(unsubscribe_packet) => {
            logs.push(Action::Info(received_message("Unsubscribe", client_id.as_slice())));
            (Task::UnsubscribeClient(unsubscribe_packet, client_id), true)
        },
        Packet::Pingreq(_) => {
            logs.push(Action::Info(received_message("Pingreq", client_id.as_slice())));
            (Task::RespondPing(client_id), true)
        },
        Packet::Disconnect(_) => {
            logs.push(Action::Info(received_message("Disconnect", client_id.as_slice())));
            (Task::DisconnectClient(client_id), false)
        },
        _ => {
            logs.push(Action::Error(String::from_str("Unsupported packet type")));
            logs.push(Action::Info(String::from_str("Disconnecting client")));
            (Task::DisconnectClient(client_id), false)
        },
    };
    assert(actions_view(logs@) =~= packet_handling(packet@, client_id@).0);
    (logs, task, keep_reading)
}

} // verus!
