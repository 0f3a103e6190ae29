use vstd::prelude::*;

use crate::bytes::{byte_seqs, bytes_equal, split_on};
use crate::model::components::qos::QoS;
use crate::model::components::topic_filter::{filter_matches, TopicFilter, TopicFilterModel};
use crate::model::components::topic_name::{encode_topic_name, TopicName, TopicNameModel};
use crate::model::packet::{Packet, PacketModel};
use crate::model::packets::connack::{Connack, ConnackModel};
use crate::model::packets::pingresp::Pingresp;
use crate::model::packets::puback::Puback;
use crate::model::packets::publish::{encode_publish_content, Publish, PublishModel};
use crate::model::packets::suback::{Suback, SubackModel};
use crate::model::packets::subscribe::{subscriptions_view, Subscribe, SubscribeModel};
use crate::model::packets::unsuback::Unsuback;
use crate::model::packets::unsubscribe::{filters_view, Unsubscribe, UnsubscribeModel};
use crate::model::return_codes::connect_return_code::ConnectReturnCode;
use crate::model::return_codes::suback_return_code::SubackReturnCode;
use crate::server::client::{subscribed_to, without_filter, Client, ClientModel};
use crate::server::log_messages::{
    client_does_not_exist_message, publish_message, subscription_filters, subscription_message,
    subscription_message_text, topic_text, unsubscription_message, filters_text,
};
use crate::server::registration::{read_reserved_topic_request, reserved_topic_request, ReservedTopicRequest, ReservedTopicRequestModel};
use crate::server::backup::{
    backup_records, backup_text, empty_state, is_backup_of, lines_of, offline_records, push_record_line, record_line, record_message,
    record_value, restore_backup, restore_line, restore_lines, restore_subscription, retained_records,
    subscription_records, text_lines, try_hex_bytes_to_bytes, BackupRecord, CLIENTS_TAG, FIELD_SEPARATOR,
    OFFLINE_MESSAGES_TAG, RETAINED_MESSAGES_TAG,
};
use crate::stream::ByteStream;
use crate::text::utf8_lossy;

verus! {

/// Represents the different tasks that the task handler can perform
pub enum Task {
    SubscribeClient(Subscribe, Vec<u8>),
    UnsubscribeClient(Unsubscribe, Vec<u8>),
    Publish(Publish, Vec<u8>),
    ConnectClient(Client),
    DisconnectClient(Vec<u8>),
    RespondPing(Vec<u8>),
}

/// What handling a task asks of whoever holds the connections, the log and the client manager.
#[derive(Debug)]
pub enum Action {
    /// Send the packet to the client.
    Send(Vec<u8>, Packet),
    /// Log that something went well.
    Info(String),
    /// Log that something went wrong.
    Error(String),
    /// Register the client, with its username and password, unless it is registered already.
    Register(Vec<u8>, Vec<u8>, Vec<u8>),
    /// Tell the client manager that the client disconnected.
    Disconnect(Vec<u8>),
}

/// The value of an [`Action`].
pub enum ActionModel {
    Send(Seq<u8>, PacketModel),
    Info(Seq<char>),
    Error(Seq<char>),
    Register(Seq<u8>, Seq<u8>, Seq<u8>),
    Disconnect(Seq<u8>),
}

impl View for Action {
    type V = ActionModel;

    open spec fn view(&self) -> ActionModel {
        match self {
            Action::Send(id, packet) => ActionModel::Send(id@, packet@),
            Action::Info(message) => ActionModel::Info(message@),
            Action::Error(message) => ActionModel::Error(message@),
            Action::Register(id, username, password) => ActionModel::Register(id@, username@, password@),
            Action::Disconnect(id) => ActionModel::Disconnect(id@),
        }
    }
}

/// The values of actions.
pub open spec fn actions_view(actions: Seq<Action>) -> Seq<ActionModel> {
    actions.map_values(|a: Action| a@)
}

/// The messages waiting for a client that was not connected when they were published.
#[derive(Debug)]
pub struct OfflineQueue {
    pub client_id: Vec<u8>,
    pub messages: Vec<Publish>,
}

/// The messages retained on a topic.
#[derive(Debug)]
pub struct RetainedQueue {
    pub topic: TopicName,
    pub messages: Vec<Publish>,
}

/// The values of messages.
pub open spec fn publishes_view(messages: Seq<Publish>) -> Seq<PublishModel> {
    messages.map_values(|p: Publish| p@)
}

impl View for OfflineQueue {
    type V = (Seq<u8>, Seq<PublishModel>);

    open spec fn view(&self) -> (Seq<u8>, Seq<PublishModel>) {
        (self.client_id@, publishes_view(self.messages@))
    }
}

impl View for RetainedQueue {
    type V = (TopicNameModel, Seq<PublishModel>);

    open spec fn view(&self) -> (TopicNameModel, Seq<PublishModel>) {
        (self.topic@, publishes_view(self.messages@))
    }
}

/// Represents the task handler that will handle all the tasks that the server needs to process
#[derive(Debug)]
pub struct TaskHandler {
    clients: Vec<Client>,
    active_connections: Vec<Vec<u8>>,
    offline_messages: Vec<OfflineQueue>,
    retained_messages: Vec<RetainedQueue>,
}

/// The value of a [`TaskHandler`]: the clients it knows, in the order it learnt of them; the
/// identifiers of the connected clients; the queues of messages for clients that were not
/// connected; the messages retained on each topic.
pub struct TaskHandlerModel {
    pub clients: Seq<ClientModel>,
    pub active_connections: Seq<Seq<u8>>,
    pub offline_messages: Seq<(Seq<u8>, Seq<PublishModel>)>,
    pub retained_messages: Seq<(TopicNameModel, Seq<PublishModel>)>,
}

impl View for TaskHandler {
    type V = TaskHandlerModel;

    closed spec fn view(&self) -> TaskHandlerModel {
        TaskHandlerModel {
            clients: self.clients@.map_values(|c: Client| c@),
            active_connections: byte_seqs(self.active_connections@),
            offline_messages: self.offline_messages@.map_values(|q: OfflineQueue| q@),
            retained_messages: self.retained_messages@.map_values(|q: RetainedQueue| q@),
        }
    }
}

/// No two clients share an identifier.
pub open spec fn unique_clients(clients: Seq<ClientModel>) -> bool {
    forall|i: int, j: int| 0 <= i < clients.len() && 0 <= j < clients.len() && i != j ==> clients[i].id != clients[j].id
}

/// No identifier is listed twice.
pub open spec fn unique_ids(ids: Seq<Seq<u8>>) -> bool {
    forall|i: int, j: int| 0 <= i < ids.len() && 0 <= j < ids.len() && i != j ==> ids[i] != ids[j]
}

/// No key has two queues.
pub open spec fn unique_keys<K, V>(queues: Seq<(K, V)>) -> bool {
    forall|i: int, j: int| 0 <= i < queues.len() && 0 <= j < queues.len() && i != j ==> queues[i].0 != queues[j].0
}

/// The position of the client with the identifier, if the server knows it.
pub open spec fn client_position(clients: Seq<ClientModel>, id: Seq<u8>) -> Option<int> {
    if exists|i: int| 0 <= i < clients.len() && clients[i].id == id {
        Some(choose|i: int| 0 <= i < clients.len() && clients[i].id == id)
    } else {
        None
    }
}

/// The position of the queue with the key, if there is one.
pub open spec fn queue_position<K, V>(queues: Seq<(K, V)>, key: K) -> Option<int> {
    if exists|i: int| 0 <= i < queues.len() && queues[i].0 == key {
        Some(choose|i: int| 0 <= i < queues.len() && queues[i].0 == key)
    } else {
        None
    }
}

/// The queues after a message is added at the end of the queue with the key; a key without
/// a queue gets a new one, after the others.
pub open spec fn enqueue<K>(queues: Seq<(K, Seq<PublishModel>)>, key: K, p: PublishModel) -> Seq<(K, Seq<PublishModel>)> {
    match queue_position(queues, key) {
        Some(i) => queues.update(i, (key, queues[i].1.push(p))),
        None => queues.push((key, seq![p])),
    }
}

/// The sends of messages to a client, in order.
pub open spec fn sends_to(client_id: Seq<u8>, messages: Seq<PublishModel>) -> Seq<ActionModel> {
    messages.map_values(|m: PublishModel| ActionModel::Send(client_id, PacketModel::Publish(m)))
}

/// The sends to a client of the messages retained on the topics that a filter matches, topic
/// after topic.
pub open spec fn matching_sends(
    filter: TopicFilterModel,
    retained: Seq<(TopicNameModel, Seq<PublishModel>)>,
    client_id: Seq<u8>,
) -> Seq<ActionModel>
    decreases retained.len(),
{
    if retained.len() == 0 {
        Seq::<ActionModel>::empty()
    } else {
        matching_sends(filter, retained.drop_last(), client_id) + if filter_matches(filter, retained.last().0) {
            sends_to(client_id, retained.last().1)
        } else {
            Seq::<ActionModel>::empty()
        }
    }
}

/// The sends to a client of the retained messages that its new filters match, filter after filter.
pub open spec fn retained_sends(
    filters: Seq<TopicFilterModel>,
    retained: Seq<(TopicNameModel, Seq<PublishModel>)>,
    client_id: Seq<u8>,
) -> Seq<ActionModel>
    decreases filters.len(),
{
    if filters.len() == 0 {
        Seq::<ActionModel>::empty()
    } else {
        retained_sends(filters.drop_last(), retained, client_id) + matching_sends(filters.last(), retained, client_id)
    }
}

/// The filters without each of `removed`, one after the other.
pub open spec fn without_filters(subscriptions: Seq<TopicFilterModel>, removed: Seq<TopicFilterModel>) -> Seq<TopicFilterModel>
    decreases removed.len(),
{
    if removed.len() == 0 {
        subscriptions
    } else {
        without_filter(without_filters(subscriptions, removed.drop_last()), removed.last())
    }
}

/// The log entry about a client that connects again.
pub open spec fn reconnected_text(client_id: Seq<u8>) -> Seq<char> {
    "Client "@ + utf8_lossy(client_id) + " reconnected"@
}

/// The acknowledgement of a connection: a session is present, the connection is accepted.
pub open spec fn connection_accepted() -> PacketModel {
    PacketModel::Connack(ConnackModel { session_present: true, connect_return_code: ConnectReturnCode::ConnectionAccepted })
}

/// Appends the sends of messages to a client.
fn push_sends(actions: &mut Vec<Action>, client_id: &[u8], messages: &Vec<Publish>)
    ensures
        actions_view(final(actions)@) == actions_view(old(actions)@) + sends_to(client_id@, publishes_view(messages@)),
{
    let ghost start = actions_view(actions@);
    let ghost all = publishes_view(messages@);
    let mut i: usize = 0;
    while i < messages.len()
        invariant
            i <= messages.len(),
            all == publishes_view(messages@),
            actions_view(actions@) == start + sends_to(client_id@, all.take(i as int)),
        decreases messages.len() - i,
    {
        let ghost before = actions_view(actions@);
        let message = messages[i].clone();
        let action = Action::Send(vstd::slice::slice_to_vec(client_id), Packet::Publish(message));
        assert(action@ == ActionModel::Send(client_id@, PacketModel::Publish(all[i as int])));
        actions.push(action);
        assert(actions_view(actions@) =~= before.push(action@));
        assert(sends_to(client_id@, all.take(i + 1)) =~= sends_to(client_id@, all.take(i as int)).push(action@));
        i = i + 1;
    }
    assert(all.take(i as int) =~= all);
}

/// The identifiers of the clients subscribed to the topic, in the order the server knows them.
pub open spec fn subscribers(clients: Seq<ClientModel>, topic: TopicNameModel) -> Seq<Seq<u8>>
    decreases clients.len(),
{
    if clients.len() == 0 {
        Seq::<Seq<u8>>::empty()
    } else if subscribed_to(clients.last().subscriptions, topic) {
        subscribers(clients.drop_last(), topic).push(clients.last().id)
    } else {
        subscribers(clients.drop_last(), topic)
    }
}

/// The sends of a message to the subscribers that are connected, in order.
pub open spec fn delivery_sends(subscribers: Seq<Seq<u8>>, active: Seq<Seq<u8>>, p: PublishModel) -> Seq<ActionModel>
    decreases subscribers.len(),
{
    if subscribers.len() == 0 {
        Seq::<ActionModel>::empty()
    } else if active.contains(subscribers.last()) {
        delivery_sends(subscribers.drop_last(), active, p).push(ActionModel::Send(subscribers.last(), PacketModel::Publish(p)))
    } else {
        delivery_sends(subscribers.drop_last(), active, p)
    }
}

/// The queues after the message is queued for each subscriber that is not connected, in order.
pub open spec fn queue_for_offline(
    offline: Seq<(Seq<u8>, Seq<PublishModel>)>,
    subscribers: Seq<Seq<u8>>,
    active: Seq<Seq<u8>>,
    p: PublishModel,
) -> Seq<(Seq<u8>, Seq<PublishModel>)>
    decreases subscribers.len(),
{
    if subscribers.len() == 0 {
        offline
    } else if active.contains(subscribers.last()) {
        queue_for_offline(offline, subscribers.drop_last(), active, p)
    } else {
        enqueue(queue_for_offline(offline, subscribers.drop_last(), active, p), subscribers.last(), p)
    }
}

/// What a publish on a server-reserved topic asks for.
pub open spec fn reserved_topic_actions(request: ReservedTopicRequestModel) -> Seq<ActionModel> {
    match request {
        ReservedTopicRequestModel::NotAdmin => seq![ActionModel::Error("Client is not admin"@)],
        ReservedTopicRequestModel::InvalidTopic => seq![ActionModel::Error("Invalid topic for server reserved topic"@)],
        ReservedTopicRequestModel::InvalidRegistration => seq![ActionModel::Error("Invalid message for client registration"@)],
        ReservedTopicRequestModel::Register { client_id, username, password } => seq![
            ActionModel::Register(client_id, username, password),
        ],
    }
}

/// The log entry about a publish that no client is subscribed to.
pub open spec fn no_subscribers_text(topic: TopicNameModel) -> Seq<char> {
    "No clients subscribed to topic: "@ + topic_text(topic)
}

/// The log entry about a publish.
pub open spec fn publish_text(client_id: Seq<u8>, p: PublishModel) -> Seq<char> {
    "Client "@ + utf8_lossy(client_id) + " published message "@ + utf8_lossy(p.message) + " to topic "@ + topic_text(p.topic)
}

/// The acknowledgement that a publisher gets when its message asks for one.
pub open spec fn puback_actions(clients: Seq<ClientModel>, p: PublishModel, client_id: Seq<u8>) -> Seq<ActionModel> {
    if p.qos != QoS::AtMost && client_position(clients, client_id) is Some {
        seq![ActionModel::Send(client_id, PacketModel::Puback(p.package_identifier))]
    } else {
        Seq::<ActionModel>::empty()
    }
}

/// What publishing a message on a topic that is not reserved by the server does: the message
/// is retained on its topic when it asks so, and the publisher gets an acknowledgement when
/// the message asks for one. When no client is subscribed, that is logged and nothing more
/// happens. Otherwise the publish is logged, the message is sent to each subscriber that is
/// connected and queued for each one that is not, and then the messages queued for the
/// publisher are sent to it, its queue emptied (an unknown publisher is logged instead).
pub open spec fn publish_outcome(m: TaskHandlerModel, p: PublishModel, client_id: Seq<u8>) -> (TaskHandlerModel, Seq<ActionModel>) {
    let retained = if p.retain {
        enqueue(m.retained_messages, p.topic, p)
    } else {
        m.retained_messages
    };
    let subs = subscribers(m.clients, p.topic);
    let offline = queue_for_offline(m.offline_messages, subs, m.active_connections, p);
    let head = if subs.len() == 0 {
        seq![ActionModel::Error(no_subscribers_text(p.topic))]
    } else {
        seq![ActionModel::Info(publish_text(client_id, p))] + delivery_sends(subs, m.active_connections, p)
    };
    let sent = head + puback_actions(m.clients, p, client_id);
    let state = TaskHandlerModel {
        clients: m.clients,
        active_connections: m.active_connections,
        offline_messages: offline,
        retained_messages: retained,
    };
    if subs.len() == 0 {
        (
            TaskHandlerModel { offline_messages: m.offline_messages, ..state },
            sent,
        )
    } else {
    match client_position(m.clients, client_id) {
        None => (state, sent.push(ActionModel::Error(client_does_not_exist_text(client_id)))),
        Some(_) => match queue_position(offline, client_id) {
            None => (state, sent),
            Some(q) => (
                TaskHandlerModel {
                    clients: m.clients,
                    active_connections: m.active_connections,
                    offline_messages: offline.update(q, (client_id, Seq::<PublishModel>::empty())),
                    retained_messages: retained,
                },
                sent + sends_to(client_id, offline[q].1),
            ),
        },
    }
    }
}

/// What subscribing does: a client the server knows gets the filters added to its own, an
/// acknowledgement, a log entry, and the messages retained on the topics they match; for an
/// unknown client, that is logged.
pub open spec fn subscribe_outcome(m: TaskHandlerModel, subscribe: SubscribeModel, client_id: Seq<u8>) -> (TaskHandlerModel, Seq<ActionModel>) {
    match client_position(m.clients, client_id) {
        Some(i) => {
            let filters = subscription_filters(subscribe.topics);
            (
                TaskHandlerModel {
                    clients: m.clients.update(i, ClientModel { id: client_id, subscriptions: m.clients[i].subscriptions + filters }),
                    active_connections: m.active_connections,
                    offline_messages: m.offline_messages,
                    retained_messages: m.retained_messages,
                },
                seq![
                    ActionModel::Send(client_id, PacketModel::Suback(SubackModel {
                        packet_identifier: subscribe.packet_identifier,
                        suback_return_codes: seq![SubackReturnCode::SuccessMaximumQoS0],
                    })),
                    ActionModel::Info(subscription_message_text(client_id, filters)),
                ] + retained_sends(filters, m.retained_messages, client_id),
            )
        },
        None => (m, seq![ActionModel::Error(client_does_not_exist_text(client_id))]),
    }
}

/// What unsubscribing does: a client the server knows loses each filter, and gets a log entry
/// and an acknowledgement; for an unknown client, that is logged.
pub open spec fn unsubscribe_outcome(m: TaskHandlerModel, unsubscribe: UnsubscribeModel, client_id: Seq<u8>) -> (TaskHandlerModel, Seq<ActionModel>) {
    match client_position(m.clients, client_id) {
        Some(i) => (
            TaskHandlerModel {
                clients: m.clients.update(i, ClientModel {
                    id: client_id,
                    subscriptions: without_filters(m.clients[i].subscriptions, unsubscribe.topics),
                }),
                active_connections: m.active_connections,
                offline_messages: m.offline_messages,
                retained_messages: m.retained_messages,
            },
            seq![
                ActionModel::Info("Client "@ + utf8_lossy(client_id) + " unsubscribed to topics "@ + filters_text(unsubscribe.topics)),
                ActionModel::Send(client_id, PacketModel::Unsuback(unsubscribe.packet_identifier)),
            ],
        ),
        None => (m, seq![ActionModel::Error(client_does_not_exist_text(client_id))]),
    }
}

/// What a publish does, on a topic reserved by the server or not.
pub open spec fn publish_task_outcome(m: TaskHandlerModel, p: PublishModel, client_id: Seq<u8>) -> (TaskHandlerModel, Seq<ActionModel>) {
    if p.topic.server_reserved {
        (m, reserved_topic_actions(reserved_topic_request(p.topic, p.message, client_id)))
    } else {
        publish_outcome(m, p, client_id)
    }
}

/// What a new connection does: a client the server knows keeps its subscriptions, and its
/// reconnection is logged; another one is added. Either way its connection is acknowledged.
pub open spec fn connection_outcome(m: TaskHandlerModel, client: ClientModel) -> (TaskHandlerModel, Seq<ActionModel>) {
    match client_position(m.clients, client.id) {
        Some(_) => (m, seq![ActionModel::Info(reconnected_text(client.id)), ActionModel::Send(client.id, connection_accepted())]),
        None => (
            TaskHandlerModel {
                clients: m.clients.push(client),
                active_connections: m.active_connections,
                offline_messages: m.offline_messages,
                retained_messages: m.retained_messages,
            },
            seq![ActionModel::Send(client.id, connection_accepted())],
        ),
    }
}

/// What a disconnection does: the client is no longer connected, and the client manager is told.
pub open spec fn disconnection_outcome(m: TaskHandlerModel, client_id: Seq<u8>) -> (TaskHandlerModel, Seq<ActionModel>) {
    (
        TaskHandlerModel {
            clients: m.clients,
            active_connections: without_id(m.active_connections, client_id),
            offline_messages: m.offline_messages,
            retained_messages: m.retained_messages,
        },
        seq![ActionModel::Disconnect(client_id)],
    )
}

/// What a ping does: a client the server knows gets a ping response; for an unknown one, that
/// is logged.
pub open spec fn ping_outcome(m: TaskHandlerModel, client_id: Seq<u8>) -> (TaskHandlerModel, Seq<ActionModel>) {
    match client_position(m.clients, client_id) {
        Some(_) => (m, seq![ActionModel::Send(client_id, PacketModel::Pingresp)]),
        None => (m, seq![ActionModel::Error(client_does_not_exist_text(client_id))]),
    }
}

/// The value of a [`Task`].
pub enum TaskModel {
    SubscribeClient(SubscribeModel, Seq<u8>),
    UnsubscribeClient(UnsubscribeModel, Seq<u8>),
    Publish(PublishModel, Seq<u8>),
    ConnectClient(ClientModel),
    DisconnectClient(Seq<u8>),
    RespondPing(Seq<u8>),
}

impl View for Task {
    type V = TaskModel;

    open spec fn view(&self) -> TaskModel {
        match self {
            Task::SubscribeClient(s, id) => TaskModel::SubscribeClient(s@, id@),
            Task::UnsubscribeClient(u, id) => TaskModel::UnsubscribeClient(u@, id@),
            Task::Publish(p, id) => TaskModel::Publish(p@, id@),
            Task::ConnectClient(c) => TaskModel::ConnectClient(c@),
            Task::DisconnectClient(id) => TaskModel::DisconnectClient(id@),
            Task::RespondPing(id) => TaskModel::RespondPing(id@),
        }
    }
}

/// What handling a task does to the state of the server, and what it asks for.
pub open spec fn task_outcome(m: TaskHandlerModel, task: TaskModel) -> (TaskHandlerModel, Seq<ActionModel>) {
    match task {
        TaskModel::SubscribeClient(s, id) => subscribe_outcome(m, s, id),
        TaskModel::UnsubscribeClient(u, id) => unsubscribe_outcome(m, u, id),
        TaskModel::Publish(p, id) => publish_task_outcome(m, p, id),
        TaskModel::ConnectClient(c) => connection_outcome(m, c),
        TaskModel::DisconnectClient(id) => disconnection_outcome(m, id),
        TaskModel::RespondPing(id) => ping_outcome(m, id),
    }
}

/// The identifiers without `id`.
pub open spec fn without_id(ids: Seq<Seq<u8>>, id: Seq<u8>) -> Seq<Seq<u8>> {
    if exists|i: int| 0 <= i < ids.len() && ids[i] == id {
        ids.remove(choose|i: int| 0 <= i < ids.len() && ids[i] == id)
    } else {
        ids
    }
}

/// The log entry about a client that the server does not know.
pub open spec fn client_does_not_exist_text(client_id: Seq<u8>) -> Seq<char> {
    "Client "@ + utf8_lossy(client_id) + " does not exist"@
}

impl TaskHandlerModel {
    /// No client, connection or queue is listed twice.
    pub open spec fn wf(self) -> bool {
        &&& unique_clients(self.clients)
        &&& unique_ids(self.active_connections)
        &&& unique_keys(self.offline_messages)
        &&& unique_keys(self.retained_messages)
    }
}

/// Whether a field is the one-byte tag `tag`.
fn is_tag(field: &Vec<u8>, tag: u8) -> (same: bool)
    ensures
        same == (field@ == seq![tag]),
{
    let same = field.len() == 1 && field[0] == tag;
    proof {
        if field@ == seq![tag] {
            assert(field@.len() == 1 && field@[0] == tag);
        }
        if same {
            assert(field@ =~= seq![tag]);
        }
    }
    same
}

/// The position of `id` among the identifiers.
fn position_of_id(ids: &Vec<Vec<u8>>, id: &[u8]) -> (position: Option<usize>)
    ensures
        match position {
            Some(i) => i < ids@.len() && byte_seqs(ids@)[i as int] == id@,
            None => !byte_seqs(ids@).contains(id@),
        },
{
    let ghost all = byte_seqs(ids@);
    let mut i: usize = 0;
    while i < ids.len()
        invariant
            i <= ids.len(),
            all == byte_seqs(ids@),
            forall|j: int| 0 <= j < i ==> all[j] != id@,
        decreases ids.len() - i,
    {
        if bytes_equal(ids[i].as_slice(), id) {
            return Some(i);
        }
        i = i + 1;
    }
    None
}

/// Whether every message of a queue fits in a packet.
fn queue_fits(messages: &Vec<Publish>) -> (fit: bool)
    ensures
        fit == forall|j: int| 0 <= j < messages@.len() ==> encode_publish_content(#[trigger] publishes_view(messages@)[j]).len() <= u32::MAX,
{
    let mut j: usize = 0;
    while j < messages.len()
        invariant
            j <= messages.len(),
            forall|b: int| 0 <= b < j ==> encode_publish_content(#[trigger] publishes_view(messages@)[b]).len() <= u32::MAX,
        decreases messages.len() - j,
    {
        assert(publishes_view(messages@)[j as int] == messages@[j as int]@);
        if messages[j].content().len() > u32::MAX as usize {
            return false;
        }
        j = j + 1;
    }
    true
}

impl TaskHandler {
    /// The state of a server that knows no client and holds no message.
    pub fn default() -> (handler: TaskHandler)
        ensures
            handler@.clients.len() == 0,
            handler@.active_connections.len() == 0,
            handler@.offline_messages.len() == 0,
            handler@.retained_messages.len() == 0,
            handler@.wf(),
    {
        TaskHandler {
            clients: Vec::new(),
            active_connections: Vec::new(),
            offline_messages: Vec::new(),
            retained_messages: Vec::new(),
        }
    }

    /// The position of the client with the identifier.
    fn find_client(&self, client_id: &[u8]) -> (position: Option<usize>)
        requires
            unique_clients(self@.clients),
        ensures
            match client_position(self@.clients, client_id@) {
                Some(i) => position == Some(i as usize),
                None => position is None,
            },
            position matches Some(i) ==> i < self@.clients.len() && self@.clients[i as int].id == client_id@,
    {
        let ghost clients = self@.clients;
        let mut i: usize = 0;
        while i < self.clients.len()
            invariant
                i <= self.clients.len(),
                clients == self.clients@.map_values(|c: Client| c@),
                unique_clients(clients),
                forall|j: int| 0 <= j < i ==> clients[j].id != client_id@,
            decreases self.clients.len() - i,
        {
            let id = self.clients[i].id();
            if bytes_equal(id.as_slice(), client_id) {
                assert(clients[i as int].id == client_id@);
                proof {
                    let k = choose|k: int| 0 <= k < clients.len() && clients[k].id == client_id@;
                    assert(k == i);
                }
                return Some(i);
            }
            i = i + 1;
        }
        None
    }

    /// Whether the client is connected.
    fn is_active(&self, client_id: &[u8]) -> (active: bool)
        ensures
            active == self@.active_connections.contains(client_id@),
    {
        let ghost ids = self@.active_connections;
        let mut i: usize = 0;
        while i < self.active_connections.len()
            invariant
                i <= self.active_connections.len(),
                ids == byte_seqs(self.active_connections@),
                forall|j: int| 0 <= j < i ==> ids[j] != client_id@,
            decreases self.active_connections.len() - i,
        {
            if bytes_equal(self.active_connections[i].as_slice(), client_id) {
                assert(ids[i as int] == client_id@);
                return true;
            }
            i = i + 1;
        }
        false
    }

    /// Records that the client is connected: the server acknowledged its connection.
    pub fn mark_active(&mut self, client_id: Vec<u8>)
        requires
            old(self)@.wf(),
        ensures
            final(self)@.wf(),
            final(self)@.clients == old(self)@.clients,
            final(self)@.offline_messages == old(self)@.offline_messages,
            final(self)@.retained_messages == old(self)@.retained_messages,
            final(self)@.active_connections == if old(self)@.active_connections.contains(client_id@) {
                old(self)@.active_connections
            } else {
                old(self)@.active_connections.push(client_id@)
            },
    {
        if !self.is_active(client_id.as_slice()) {
            let ghost before = self@.active_connections;
            self.active_connections.push(client_id);
            assert(self@.active_connections =~= before.push(client_id@));
        }
    }

    /// Send a ping response to a client
    pub fn respond_ping(&self, client_id: Vec<u8>) -> (actions: Vec<Action>)
        requires
            self@.wf(),
        ensures
            (self@, actions_view(actions@)) == ping_outcome(self@, client_id@),
    {
        let mut actions: Vec<Action> = Vec::new();
        match self.find_client(client_id.as_slice()) {
            None => {
                actions.push(Action::Error(client_does_not_exist_message(client_id.as_slice())));
            },
            Some(_) => {
                actions.push(Action::Send(client_id, Packet::Pingresp(Pingresp::new())));
            },
        }
        assert(actions_view(actions@) =~= match client_position(self@.clients, client_id@) {
            Some(_) => seq![ActionModel::Send(client_id@, PacketModel::Pingresp)],
            None => seq![ActionModel::Error(client_does_not_exist_text(client_id@))],
        });
        actions
    }

    /// Handle a client disconnection: the client is no longer connected, and the client
    /// manager is told.
    pub fn handle_client_disconnected(&mut self, client_id: Vec<u8>) -> (actions: Vec<Action>)
        requires
            old(self)@.wf(),
        ensures
            final(self)@.wf(),
            (final(self)@, actions_view(actions@)) == disconnection_outcome(old(self)@, client_id@),
    {
        let ghost before = self@.active_connections;
        if let Some(i) = position_of_id(&self.active_connections, client_id.as_slice()) {
            assert(before[i as int] == client_id@);
            self.active_connections.remove(i);
            assert(self@.active_connections =~= before.remove(i as int));
            proof {
                let k = choose|k: int| 0 <= k < before.len() && before[k] == client_id@;
                assert(k == i);
                let after = self@.active_connections;
                assert forall|a: int, b: int| 0 <= a < after.len() && 0 <= b < after.len() && a != b implies after[a] != after[b] by {
                    let a2 = if a < i { a } else { a + 1 };
                    let b2 = if b < i { b } else { b + 1 };
                    assert(after[a] == before[a2]);
                    assert(after[b] == before[b2]);
                }
            }
        }
        let mut actions: Vec<Action> = Vec::new();
        actions.push(Action::Disconnect(client_id));
        assert(actions_view(actions@) =~= seq![ActionModel::Disconnect(client_id@)]);
        actions
    }

    /// Appends the sends to a client of the messages retained on the topics that a filter matches.
    fn push_matching_sends(&self, actions: &mut Vec<Action>, client_id: &[u8], filter: &TopicFilter)
        ensures
            actions_view(final(actions)@) == actions_view(old(actions)@) + matching_sends(
                filter@,
                self@.retained_messages,
                client_id@,
            ),
    {
        let ghost start = actions_view(actions@);
        let ghost retained = self@.retained_messages;
        let mut k: usize = 0;
        while k < self.retained_messages.len()
            invariant
                k <= self.retained_messages.len(),
                retained == self@.retained_messages,
                retained == self.retained_messages@.map_values(|q: RetainedQueue| q@),
                actions_view(actions@) == start + matching_sends(filter@, retained.take(k as int), client_id@),
            decreases self.retained_messages.len() - k,
        {
            assert(retained.take(k + 1).drop_last() =~= retained.take(k as int));
            assert(retained.take(k + 1).last() == self.retained_messages@[k as int]@);
            if filter.match_topic_name(self.retained_messages[k].topic.clone()) {
                push_sends(actions, client_id, &self.retained_messages[k].messages);
            }
            k = k + 1;
            assert(actions_view(actions@) =~= start + matching_sends(filter@, retained.take(k as int), client_id@));
        }
        assert(retained.take(k as int) =~= retained);
    }

    /// Handle a new client connection: a client that the server knows keeps its subscriptions
    /// and gets its new connection; another one is added. Either way its connection is
    /// acknowledged.
    pub fn handle_new_client_connection(&mut self, client: Client) -> (actions: Vec<Action>)
        requires
            old(self)@.wf(),
        ensures
            final(self)@.wf(),
            (final(self)@, actions_view(actions@)) == connection_outcome(old(self)@, client@),
    {
        let client_id = client.id();
        let mut actions: Vec<Action> = Vec::new();
        let ghost before = self@.clients;
        match self.find_client(client_id.as_slice()) {
            Some(_) => {
                let mut message = String::from_str("Client ");
                message.append(crate::text::lossy_string(client_id.as_slice()).as_str());
                message.append(" reconnected");
                actions.push(Action::Info(message));
            },
            None => {
                self.clients.push(client);
                assert(self@.clients =~= before.push(client@));
            },
        }
        let connack_packet = Connack::new(true, ConnectReturnCode::ConnectionAccepted);
        actions.push(Action::Send(client_id, Packet::Connack(connack_packet)));
        proof {
            match client_position(before, client@.id) {
                Some(_) => {
                    assert(actions_view(actions@) =~= seq![
                        ActionModel::Info(reconnected_text(client@.id)),
                        ActionModel::Send(client@.id, connection_accepted()),
                    ]);
                },
                None => {
                    assert(actions_view(actions@) =~= seq![ActionModel::Send(client@.id, connection_accepted())]);
                },
            }
        }
        actions
    }

    /// Subscribe a client_id into a set of topics given a Subscribe packet: the subscription is
    /// acknowledged and logged, the filters are added to the client's, and the messages
    /// retained on the topics they match are sent to the client.
    pub fn subscribe(&mut self, subscribe_packet: Subscribe, client_id: Vec<u8>) -> (actions: Vec<Action>)
        requires
            old(self)@.wf(),
        ensures
            final(self)@.wf(),
            (final(self)@, actions_view(actions@)) == subscribe_outcome(old(self)@, subscribe_packet@, client_id@),
    {
        let mut actions: Vec<Action> = Vec::new();
        let i = match self.find_client(client_id.as_slice()) {
            Some(i) => i,
            None => {
                actions.push(Action::Error(client_does_not_exist_message(client_id.as_slice())));
                assert(actions_view(actions@) =~= seq![ActionModel::Error(client_does_not_exist_text(client_id@))]);
                return actions;
            },
        };
        let ghost old_clients = self@.clients;
        let ghost filters = subscription_filters(subscribe_packet@.topics);
        assert(old_clients[i as int].id == client_id@);

        let mut return_codes: Vec<SubackReturnCode> = Vec::new();
        return_codes.push(SubackReturnCode::SuccessMaximumQoS0);
        assert(return_codes@ =~= seq![SubackReturnCode::SuccessMaximumQoS0]);
        let suback_packet = Suback::new(subscribe_packet.packet_identifier(), return_codes);
        actions.push(Action::Send(vstd::slice::slice_to_vec(client_id.as_slice()), Packet::Suback(suback_packet)));
        actions.push(Action::Info(subscription_message(client_id.as_slice(), &subscribe_packet)));
        let ghost head = actions_view(actions@);
        assert(head =~= seq![
            ActionModel::Send(client_id@, PacketModel::Suback(SubackModel {
                packet_identifier: subscribe_packet@.packet_identifier,
                suback_return_codes: seq![SubackReturnCode::SuccessMaximumQoS0],
            })),
            ActionModel::Info(subscription_message_text(client_id@, filters)),
        ]);

        let topics = subscribe_packet.topics();
        assert forall|t: int| 0 <= t < topics@.len() implies #[trigger] topics@[t].0@ == filters[t] by {
            assert(subscriptions_view(topics@)[t] == subscribe_packet@.topics[t]);
        }
        let mut client = self.clients.remove(i);
        assert(client@ == old_clients[i as int]);
        let ghost start_subscriptions = client@.subscriptions;
        let mut j: usize = 0;
        while j < topics.len()
            invariant
                j <= topics.len(),
                filters == subscription_filters(subscribe_packet@.topics),
                topics@.len() == filters.len(),
                forall|t: int| 0 <= t < topics@.len() ==> #[trigger] topics@[t].0@ == filters[t],
                client@.id == client_id@,
                client@.subscriptions == start_subscriptions + filters.take(j as int),
                actions_view(actions@) == head + retained_sends(filters.take(j as int), self@.retained_messages, client_id@),
            decreases topics.len() - j,
        {
            assert(filters.take(j + 1).drop_last() =~= filters.take(j as int));
            assert(filters.take(j + 1).last() == topics@[j as int].0@);
            client.add_subscription(topics[j].0.clone());
            self.push_matching_sends(&mut actions, client_id.as_slice(), &topics[j].0);
            j = j + 1;
            assert(client@.subscriptions =~= start_subscriptions + filters.take(j as int));
            assert(actions_view(actions@) =~= head + retained_sends(filters.take(j as int), self@.retained_messages, client_id@));
        }
        assert(filters.take(j as int) =~= filters);
        self.clients.insert(i, client);
        proof {
            assert(self@.clients =~= old_clients.update(i as int, ClientModel {
                id: client_id@,
                subscriptions: old_clients[i as int].subscriptions + filters,
            }));
            let after = self@.clients;
            assert forall|a: int, b: int| 0 <= a < after.len() && 0 <= b < after.len() && a != b implies after[a].id != after[b].id by {
                assert(after[a].id == old_clients[a].id);
                assert(after[b].id == old_clients[b].id);
            }
        }
        actions
    }

    /// Unsubscribe a client_id from a set of topics given an Unsubscribe packet: every filter
    /// of the packet is removed from the client's, and the unsubscription is logged and
    /// acknowledged.
    pub fn unsubscribe(&mut self, unsubscribe_packet: Unsubscribe, client_id: Vec<u8>) -> (actions: Vec<Action>)
        requires
            old(self)@.wf(),
        ensures
            final(self)@.wf(),
            (final(self)@, actions_view(actions@)) == unsubscribe_outcome(old(self)@, unsubscribe_packet@, client_id@),
    {
        let mut actions: Vec<Action> = Vec::new();
        let i = match self.find_client(client_id.as_slice()) {
            Some(i) => i,
            None => {
                actions.push(Action::Error(client_does_not_exist_message(client_id.as_slice())));
                assert(actions_view(actions@) =~= seq![ActionModel::Error(client_does_not_exist_text(client_id@))]);
                return actions;
            },
        };
        let ghost old_clients = self@.clients;
        let ghost removed = unsubscribe_packet@.topics;
        let mut client = self.clients.remove(i);
        assert(client@ == old_clients[i as int]);
        let ghost start_subscriptions = client@.subscriptions;
        let topics = unsubscribe_packet.topics();
        let mut j: usize = 0;
        while j < topics.len()
            invariant
                j <= topics.len(),
                filters_view(topics@) == removed,
                client@.id == client_id@,
                client@.subscriptions == without_filters(start_subscriptions, removed.take(j as int)),
            decreases topics.len() - j,
        {
            assert(removed.take(j + 1).drop_last() =~= removed.take(j as int));
            assert(removed.take(j + 1).last() == topics@[j as int]@);
            client.remove_subscription(&topics[j]);
            j = j + 1;
        }
        assert(removed.take(j as int) =~= removed);
        self.clients.insert(i, client);
        proof {
            assert(self@.clients =~= old_clients.update(i as int, ClientModel {
                id: client_id@,
                subscriptions: without_filters(old_clients[i as int].subscriptions, removed),
            }));
            let after = self@.clients;
            assert forall|a: int, b: int| 0 <= a < after.len() && 0 <= b < after.len() && a != b implies after[a].id != after[b].id by {
                assert(after[a].id == old_clients[a].id);
                assert(after[b].id == old_clients[b].id);
            }
        }

        actions.push(Action::Info(unsubscription_message(client_id.as_slice(), &unsubscribe_packet)));
        let unsuback_packet = Unsuback::new(unsubscribe_packet.packet_identifier());
        actions.push(Action::Send(client_id, Packet::Unsuback(unsuback_packet)));
        assert(actions_view(actions@) =~= seq![
            ActionModel::Info("Client "@ + utf8_lossy(client_id@) + " unsubscribed to topics "@
                + filters_text(unsubscribe_packet@.topics)),
            ActionModel::Send(client_id@, PacketModel::Unsuback(unsubscribe_packet@.packet_identifier)),
        ]);
        actions
    }

    /// The identifiers of the clients subscribed to the topic.
    fn subscriber_ids(&self, topic: &TopicName) -> (ids: Vec<Vec<u8>>)
        ensures
            byte_seqs(ids@) == subscribers(self@.clients, topic@),
    {
        let ghost clients = self@.clients;
        let mut ids: Vec<Vec<u8>> = Vec::new();
        let mut i: usize = 0;
        while i < self.clients.len()
            invariant
                i <= self.clients.len(),
                clients == self.clients@.map_values(|c: Client| c@),
                byte_seqs(ids@) == subscribers(clients.take(i as int), topic@),
            decreases self.clients.len() - i,
        {
            assert(clients.take(i + 1).drop_last() =~= clients.take(i as int));
            assert(clients.take(i + 1).last() == self.clients@[i as int]@);
            if self.clients[i].is_subscribed(topic) {
                let ghost before = byte_seqs(ids@);
                ids.push(self.clients[i].id());
                assert(byte_seqs(ids@) =~= before.push(clients[i as int].id));
            }
            i = i + 1;
        }
        assert(clients.take(i as int) =~= clients);
        ids
    }

    /// The position of the queue of messages waiting for the client.
    fn find_offline(&self, client_id: &[u8]) -> (position: Option<usize>)
        requires
            unique_keys(self@.offline_messages),
        ensures
            match queue_position(self@.offline_messages, client_id@) {
                Some(q) => position == Some(q as usize),
                None => position is None,
            },
            position matches Some(q) ==> q < self@.offline_messages.len() && self@.offline_messages[q as int].0 == client_id@,
    {
        let ghost queues = self@.offline_messages;
        let mut i: usize = 0;
        while i < self.offline_messages.len()
            invariant
                i <= self.offline_messages.len(),
                queues == self.offline_messages@.map_values(|q: OfflineQueue| q@),
                unique_keys(queues),
                forall|j: int| 0 <= j < i ==> queues[j].0 != client_id@,
            decreases self.offline_messages.len() - i,
        {
            if bytes_equal(self.offline_messages[i].client_id.as_slice(), client_id) {
                assert(queues[i as int].0 == client_id@);
                proof {
                    let k = choose|k: int| 0 <= k < queues.len() && queues[k].0 == client_id@;
                    assert(k == i);
                }
                return Some(i);
            }
            i = i + 1;
        }
        None
    }

    /// The position of the messages retained on the topic.
    fn find_retained(&self, topic: &TopicName) -> (position: Option<usize>)
        requires
            unique_keys(self@.retained_messages),
        ensures
            match queue_position(self@.retained_messages, topic@) {
                Some(q) => position == Some(q as usize),
                None => position is None,
            },
    {
        let ghost queues = self@.retained_messages;
        let mut i: usize = 0;
        while i < self.retained_messages.len()
            invariant
                i <= self.retained_messages.len(),
                queues == self.retained_messages@.map_values(|q: RetainedQueue| q@),
                unique_keys(queues),
                forall|j: int| 0 <= j < i ==> queues[j].0 != topic@,
            decreases self.retained_messages.len() - i,
        {
            if self.retained_messages[i].topic.same_as(topic) {
                assert(queues[i as int].0 == topic@);
                proof {
                    let k = choose|k: int| 0 <= k < queues.len() && queues[k].0 == topic@;
                    assert(k == i);
                }
                return Some(i);
            }
            i = i + 1;
        }
        None
    }

    /// Queues a message for a client that is not connected.
    fn enqueue_offline(&mut self, client_id: &[u8], p: Publish)
        requires
            old(self)@.wf(),
        ensures
            final(self)@.wf(),
            final(self)@.clients == old(self)@.clients,
            final(self)@.active_connections == old(self)@.active_connections,
            final(self)@.retained_messages == old(self)@.retained_messages,
            final(self)@.offline_messages == enqueue(old(self)@.offline_messages, client_id@, p@),
    {
        let ghost before = self@.offline_messages;
        match self.find_offline(client_id) {
            Some(q) => {
                let mut queue = self.offline_messages.remove(q);
                assert(queue@ == before[q as int]);
                let ghost messages = queue@.1;
                queue.messages.push(p);
                assert(queue@.1 =~= messages.push(p@));
                self.offline_messages.insert(q, queue);
                assert(self@.offline_messages =~= before.update(q as int, (client_id@, before[q as int].1.push(p@))));
            },
            None => {
                let mut messages: Vec<Publish> = Vec::new();
                messages.push(p);
                assert(publishes_view(messages@) =~= seq![messages@[0]@]);
                let queue = OfflineQueue { client_id: vstd::slice::slice_to_vec(client_id), messages };
                assert(queue@ == (client_id@, seq![p@]));
                self.offline_messages.push(queue);
                assert(self@.offline_messages =~= before.push((client_id@, seq![p@])));
            },
        }
        proof {
            let after = self@.offline_messages;
            assert forall|a: int, b: int| 0 <= a < after.len() && 0 <= b < after.len() && a != b implies after[a].0 != after[b].0 by {
                if a < before.len() && b < before.len() {
                    assert(after[a].0 == before[a].0);
                    assert(after[b].0 == before[b].0);
                }
            }
        }
    }

    /// Retains a message on a topic.
    fn enqueue_retained(&mut self, topic: TopicName, p: Publish)
        requires
            old(self)@.wf(),
        ensures
            final(self)@.wf(),
            final(self)@.clients == old(self)@.clients,
            final(self)@.active_connections == old(self)@.active_connections,
            final(self)@.offline_messages == old(self)@.offline_messages,
            final(self)@.retained_messages == enqueue(old(self)@.retained_messages, topic@, p@),
    {
        let ghost before = self@.retained_messages;
        match self.find_retained(&topic) {
            Some(q) => {
                let mut queue = self.retained_messages.remove(q);
                assert(queue@ == before[q as int]);
                let ghost messages = queue@.1;
                queue.messages.push(p);
                assert(queue@.1 =~= messages.push(p@));
                self.retained_messages.insert(q, queue);
                assert(self@.retained_messages =~= before.update(q as int, (topic@, before[q as int].1.push(p@))));
            },
            None => {
                let ghost t = topic@;
                let ghost pm = p@;
                let mut messages: Vec<Publish> = Vec::new();
                messages.push(p);
                assert(publishes_view(messages@) =~= seq![pm]);
                let queue = RetainedQueue { topic, messages };
                assert(queue@ == (t, seq![pm]));
                self.retained_messages.push(queue);
                assert(self@.retained_messages =~= before.push((t, seq![pm])));
            },
        }
        proof {
            let after = self@.retained_messages;
            assert forall|a: int, b: int| 0 <= a < after.len() && 0 <= b < after.len() && a != b implies after[a].0 != after[b].0 by {
                if a < before.len() && b < before.len() {
                    assert(after[a].0 == before[a].0);
                    assert(after[b].0 == before[b].0);
                }
            }
        }
    }

    /// Send a suback packet to a client
    pub fn suback(&self, package_identifier: u16, client_id: &[u8]) -> (action: Action)
        ensures
            action@ == ActionModel::Send(client_id@, PacketModel::Suback(SubackModel {
                packet_identifier: package_identifier,
                suback_return_codes: seq![SubackReturnCode::SuccessMaximumQoS0],
            })),
    {
        let mut return_codes: Vec<SubackReturnCode> = Vec::new();
        return_codes.push(SubackReturnCode::SuccessMaximumQoS0);
        assert(return_codes@ =~= seq![SubackReturnCode::SuccessMaximumQoS0]);
        Action::Send(vstd::slice::slice_to_vec(client_id), Packet::Suback(Suback::new(package_identifier, return_codes)))
    }

    /// Send a puback packet to a client
    pub fn puback(&self, package_identifier: Option<u16>, client_id: &[u8]) -> (action: Action)
        ensures
            action@ == ActionModel::Send(client_id@, PacketModel::Puback(package_identifier)),
    {
        Action::Send(vstd::slice::slice_to_vec(client_id), Packet::Puback(Puback::new(package_identifier)))
    }

    /// Send an unsuback packet to a client
    pub fn unsuback(&self, package_identifier: u16, client_id: &[u8]) -> (action: Action)
        ensures
            action@ == ActionModel::Send(client_id@, PacketModel::Unsuback(package_identifier)),
    {
        Action::Send(vstd::slice::slice_to_vec(client_id), Packet::Unsuback(Unsuback::new(package_identifier)))
    }

    /// Handle retained messages for a client: each is sent to it, in order.
    pub fn handle_retained_messages(&self, client_id: &[u8], retained_messages: &Vec<Publish>) -> (actions: Vec<Action>)
        ensures
            actions_view(actions@) == sends_to(client_id@, publishes_view(retained_messages@)),
    {
        let mut actions: Vec<Action> = Vec::new();
        push_sends(&mut actions, client_id, retained_messages);
        assert(actions_view(actions@) =~= sends_to(client_id@, publishes_view(retained_messages@)));
        actions
    }

    /// Handle a server reserved topic (e.g. $client-register): only the admin client may
    /// register a client, with a message of three fields on "$client-register". The request
    /// is handed to the login registry, which registers the client only when it is not
    /// registered with those credentials yet ([`crate::server::login::LoginRegistry::register_client`]).
    pub fn handle_server_reserved_topic(&self, publish_packet: &Publish, client_id: Vec<u8>) -> (actions: Vec<Action>)
        ensures
            actions_view(actions@) == reserved_topic_actions(
                reserved_topic_request(publish_packet@.topic, publish_packet@.message, client_id@),
            ),
    {
        let mut actions: Vec<Action> = Vec::new();
        match read_reserved_topic_request(publish_packet, client_id.as_slice()) {
            ReservedTopicRequest::NotAdmin => {
                actions.push(Action::Error(String::from_str("Client is not admin")));
            },
            ReservedTopicRequest::InvalidTopic => {
                actions.push(Action::Error(String::from_str("Invalid topic for server reserved topic")));
            },
            ReservedTopicRequest::InvalidRegistration => {
                actions.push(Action::Error(String::from_str("Invalid message for client registration")));
            },
            ReservedTopicRequest::Register { client_id, username, password } => {
                actions.push(Action::Register(client_id, username, password));
            },
        }
        assert(actions_view(actions@) =~= reserved_topic_actions(
            reserved_topic_request(publish_packet@.topic, publish_packet@.message, client_id@),
        ));
        actions
    }

    /// Publish a message to all clients subscribed to the topic of the Publish packet
    pub fn publish(&mut self, publish_packet: &Publish, client_id: Vec<u8>) -> (actions: Vec<Action>)
        requires
            old(self)@.wf(),
        ensures
            final(self)@.wf(),
            (final(self)@, actions_view(actions@)) == publish_task_outcome(old(self)@, publish_packet@, client_id@),
    {
        let topic_name = publish_packet.topic();

        if topic_name.server_reserved() {
            return self.handle_server_reserved_topic(publish_packet, client_id);
        }

        let ghost start = self@;
        let ghost p = publish_packet@;
        if publish_packet.retain() {
            self.enqueue_retained(publish_packet.topic().clone(), publish_packet.clone());
        }
        let ghost retained = self@.retained_messages;

        let subscriber_list = self.subscriber_ids(topic_name);
        let ghost subs = byte_seqs(subscriber_list@);
        let mut actions: Vec<Action> = Vec::new();

        if subscriber_list.len() == 0 {
            let mut message = String::from_str("No clients subscribed to topic: ");
            message.append(topic_name.serialize().as_str());
            actions.push(Action::Error(message));
            assert(actions_view(actions@) =~= seq![ActionModel::Error(no_subscribers_text(p.topic))]);
        } else {
            actions.push(Action::Info(publish_message(client_id.as_slice(), publish_packet)));
            assert(actions_view(actions@) =~= seq![ActionModel::Info(publish_text(client_id@, p))]);
        }
        let ghost head = actions_view(actions@);

        let mut k: usize = 0;
        assert(subs.take(0) =~= Seq::<Seq<u8>>::empty());
        while k < subscriber_list.len()
            invariant
                k <= subscriber_list.len(),
                subs == byte_seqs(subscriber_list@),
                subs == subscribers(start.clients, p.topic),
                p == publish_packet@,
                self@.wf(),
                self@.clients == start.clients,
                self@.active_connections == start.active_connections,
                self@.retained_messages == retained,
                self@.offline_messages == queue_for_offline(start.offline_messages, subs.take(k as int), start.active_connections, p),
                actions_view(actions@) == head + delivery_sends(subs.take(k as int), start.active_connections, p),
            decreases subscriber_list.len() - k,
        {
            assert(subs.take(k + 1).drop_last() =~= subs.take(k as int));
            assert(subs.take(k + 1).last() == subscriber_list@[k as int]@);
            if self.is_active(subscriber_list[k].as_slice()) {
                let ghost before = actions_view(actions@);
                let action = Action::Send(vstd::slice::slice_to_vec(subscriber_list[k].as_slice()), Packet::Publish(publish_packet.clone()));
                actions.push(action);
                assert(actions_view(actions@) =~= before.push(ActionModel::Send(subs[k as int], PacketModel::Publish(p))));
            } else {
                self.enqueue_offline(subscriber_list[k].as_slice(), publish_packet.clone());
            }
            k = k + 1;
        }
        assert(subs.take(k as int) =~= subs);
        let ghost offline = self@.offline_messages;

        let publisher = self.find_client(client_id.as_slice());

        // If QoS is not AtMostOnce, send a Puback packet to the client that published the message
        let at_most = match publish_packet.qos() {
            QoS::AtMost => true,
            _ => false,
        };
        let ghost before_puback = actions_view(actions@);
        if !at_most && publisher.is_some() {
            actions.push(self.puback(publish_packet.package_identifier(), client_id.as_slice()));
        }
        assert(actions_view(actions@) =~= before_puback + puback_actions(start.clients, p, client_id@));
        let ghost sent = actions_view(actions@);

        if subscriber_list.len() == 0 {
            return actions;
        }

        if publisher.is_none() {
            let ghost before = actions_view(actions@);
            actions.push(Action::Error(client_does_not_exist_message(client_id.as_slice())));
            assert(actions_view(actions@) =~= before.push(ActionModel::Error(client_does_not_exist_text(client_id@))));
            return actions;
        }

        match self.find_offline(client_id.as_slice()) {
            None => {},
            Some(q) => {
                let queue = self.offline_messages.remove(q);
                assert(queue@ == offline[q as int]);
                push_sends(&mut actions, client_id.as_slice(), &queue.messages);
                let emptied = OfflineQueue { client_id: queue.client_id, messages: Vec::new() };
                assert(emptied@ =~= (client_id@, Seq::<PublishModel>::empty()));
                self.offline_messages.insert(q, emptied);
                assert(self@.offline_messages =~= offline.update(q as int, (client_id@, Seq::<PublishModel>::empty())));
                proof {
                    let after = self@.offline_messages;
                    assert forall|a: int, b: int| 0 <= a < after.len() && 0 <= b < after.len() && a != b implies after[a].0 != after[b].0 by {
                        assert(after[a].0 == offline[a].0);
                        assert(after[b].0 == offline[b].0);
                    }
                }
            },
        }
        actions
    }

    /// Handles all possible tasks that the server can receive
    pub fn handle_task(&mut self, task: Task) -> (actions: Vec<Action>)
        requires
            old(self)@.wf(),
        ensures
            final(self)@.wf(),
            (final(self)@, actions_view(actions@)) == task_outcome(old(self)@, task@),
    {
        match task {
            Task::SubscribeClient(subscribe, client_id) => self.subscribe(subscribe, client_id),
            Task::UnsubscribeClient(unsubscribe, client_id) => self.unsubscribe(unsubscribe, client_id),
            Task::Publish(publish, client_id) => self.publish(&publish, client_id),
            Task::ConnectClient(client) => self.handle_new_client_connection(client),
            Task::DisconnectClient(client_id) => self.handle_client_disconnected(client_id),
            Task::RespondPing(client_id) => self.respond_ping(client_id),
        }
    }

    /// Adds a subscription restored from a backup to its client, which is added if the server
    /// does not know it yet.
    fn restore_subscription(&mut self, client_id: Vec<u8>, filter: TopicFilter)
        requires
            old(self)@.wf(),
        ensures
            final(self)@.wf(),
            final(self)@.clients == restore_subscription(old(self)@.clients, client_id@, filter@),
            final(self)@.active_connections == old(self)@.active_connections,
            final(self)@.offline_messages == old(self)@.offline_messages,
            final(self)@.retained_messages == old(self)@.retained_messages,
    {
        let ghost before = self@.clients;
        match self.find_client(client_id.as_slice()) {
            Some(i) => {
                let mut client = self.clients.remove(i);
                assert(client@ == before[i as int]);
                client.add_subscription(filter);
                self.clients.insert(i, client);
                assert(self@.clients =~= before.update(i as int, ClientModel {
                    id: client_id@,
                    subscriptions: before[i as int].subscriptions.push(filter@),
                }));
            },
            None => {
                let mut subscriptions: Vec<TopicFilter> = Vec::new();
                subscriptions.push(filter);
                let client = Client::new_from_backup(client_id, subscriptions);
                assert(client@.subscriptions =~= seq![filter@]);
                self.clients.push(client);
                assert(self@.clients =~= before.push(ClientModel { id: client_id@, subscriptions: seq![filter@] }));
            },
        }
        proof {
            let after = self@.clients;
            assert forall|a: int, b: int| 0 <= a < after.len() && 0 <= b < after.len() && a != b implies after[a].id != after[b].id by {
                if a < before.len() && b < before.len() {
                    assert(after[a].id == before[a].id);
                    assert(after[b].id == before[b].id);
                }
            }
        }
    }

    /// The message that a record holds, read as a PUBLISH packet under the key; `None` when its
    /// bytes cannot be read as a packet.
    fn read_record_message(value: Vec<u8>, key: &[u8]) -> (message: Option<Option<Publish>>)
        requires
            key@.len() == 32,
        ensures
            match record_message(value@, key@) {
                None => message is None,
                Some(None) => message matches Some(None),
                Some(Some(p)) => message matches Some(Some(publish)) && publish@ == p,
            },
    {
        let mut value_stream = ByteStream::new(value);
        match Packet::try_from_bytes(&mut value_stream, key) {
            None => None,
            Some(Ok(Packet::Publish(publish))) => Some(Some(publish)),
            Some(_) => Some(None),
        }
    }

    /// Restores one line of a backup; gives `false` when the line cannot be read at all.
    fn restore_line(&mut self, line: &[u8], key: &[u8]) -> (restored: bool)
        requires
            old(self)@.wf(),
            key@.len() == 32,
        ensures
            match restore_line(old(self)@, line@, key@) {
                None => !restored,
                Some(m) => restored && final(self)@ == m && final(self)@.wf(),
            },
    {
        let parts = split_on(line, FIELD_SEPARATOR);
        let ghost fields = byte_seqs(parts@);
        if parts.len() != 3 {
            return true;
        }
        assert(fields[0] == parts@[0]@ && fields[1] == parts@[1]@ && fields[2] == parts@[2]@);
        let entry_key = match try_hex_bytes_to_bytes(parts[1].as_slice()) {
            None => {
                return false;
            },
            Some(Err(_)) => {
                return true;
            },
            Some(Ok(entry_key)) => entry_key,
        };
        let value = match try_hex_bytes_to_bytes(parts[2].as_slice()) {
            None => {
                return false;
            },
            Some(Err(_)) => {
                return true;
            },
            Some(Ok(value)) => value,
        };
        let tag = &parts[0];
        if is_tag(tag, OFFLINE_MESSAGES_TAG) {
            match TaskHandler::read_record_message(value, key) {
                None => {
                    return false;
                },
                Some(None) => {},
                Some(Some(publish)) => {
                    self.enqueue_offline(entry_key.as_slice(), publish);
                },
            }
        } else if is_tag(tag, RETAINED_MESSAGES_TAG) {
            let mut entry_stream = ByteStream::new(entry_key);
            if let Ok(topic_name) = TopicName::from_bytes(&mut entry_stream) {
                match TaskHandler::read_record_message(value, key) {
                    None => {
                        return false;
                    },
                    Some(None) => {},
                    Some(Some(publish)) => {
                        self.enqueue_retained(topic_name, publish);
                    },
                }
            }
        } else if is_tag(tag, CLIENTS_TAG) {
            let mut value_stream = ByteStream::new(value);
            if let Ok(subscription) = TopicFilter::from_bytes(&mut value_stream) {
                self.restore_subscription(entry_key, subscription);
            }
        }
        true
    }

    /// Builds a TaskHandler from a backup file string, or gives `None` when a line of it cannot
    /// be read at all.
    pub fn try_deserialize(serialized_data: &str, key: &[u8]) -> (handler: Option<TaskHandler>)
        requires
            key@.len() == 32,
        ensures
            match restore_backup(serialized_data@, key@) {
                None => handler is None,
                Some(m) => handler matches Some(h) && h@ == m && h@.wf(),
            },
    {
        let lines = lines_of(serialized_data.as_bytes());
        let ghost all = byte_seqs(lines@);
        let mut handler = TaskHandler::default();
        assert(handler@.clients =~= empty_state().clients);
        assert(handler@.active_connections =~= empty_state().active_connections);
        assert(handler@.offline_messages =~= empty_state().offline_messages);
        assert(handler@.retained_messages =~= empty_state().retained_messages);
        let mut i: usize = 0;
        while i < lines.len()
            invariant
                i <= lines.len(),
                key@.len() == 32,
                all == byte_seqs(lines@),
                all == text_lines(vstd::utf8::encode_utf8(serialized_data@)),
                handler@.wf(),
                restore_lines(all.take(i as int), key@) == Some(handler@),
            decreases lines.len() - i,
        {
            assert(all.take(i + 1).drop_last() =~= all.take(i as int));
            assert(all.take(i + 1).last() == lines@[i as int]@);
            if !handler.restore_line(lines[i].as_slice(), key) {
                proof {
                    lemma_restore_lines_stops(all, i as int + 1, key@);
                }
                return None;
            }
            i = i + 1;
        }
        assert(all.take(i as int) =~= all);
        Some(handler)
    }

    /// Builds a TaskHandler from a backup file string
    pub fn deserialize(serialized_data: &str, key: &[u8]) -> (handler: TaskHandler)
        requires
            key@.len() == 32,
            restore_backup(serialized_data@, key@) is Some,
        ensures
            restore_backup(serialized_data@, key@) == Some(handler@),
            handler@.wf(),
    {
        match TaskHandler::try_deserialize(serialized_data, key) {
            Some(handler) => handler,
            None => {
                assert(false);
                TaskHandler::default()
            },
        }
    }


    /// Whether every message held fits in a packet.
    fn messages_fit_check(&self) -> (fit: bool)
        ensures
            fit == messages_fit(self@),
    {
        let ghost m = self@;
        let mut i: usize = 0;
        while i < self.offline_messages.len()
            invariant
                i <= self.offline_messages.len(),
                m == self@,
                forall|a: int, b: int|
                    0 <= a < i && 0 <= b < m.offline_messages[a].1.len() ==> encode_publish_content(
                        #[trigger] m.offline_messages[a].1[b],
                    ).len() <= u32::MAX,
            decreases self.offline_messages.len() - i,
        {
            assert(m.offline_messages[i as int] == self.offline_messages@[i as int]@);
            if !queue_fits(&self.offline_messages[i].messages) {
                proof {
                    let msgs = publishes_view(self.offline_messages@[i as int].messages@);
                    let j = choose|j: int| 0 <= j < msgs.len() && !(encode_publish_content(#[trigger] msgs[j]).len() <= u32::MAX);
                    assert(m.offline_messages[i as int].1 == msgs);
                    assert(encode_publish_content(m.offline_messages[i as int].1[j]).len() > u32::MAX);
                }
                return false;
            }
            i = i + 1;
        }
        let mut k: usize = 0;
        while k < self.retained_messages.len()
            invariant
                k <= self.retained_messages.len(),
                m == self@,
                forall|a: int, b: int|
                    0 <= a < m.offline_messages.len() && 0 <= b < m.offline_messages[a].1.len() ==> encode_publish_content(
                        #[trigger] m.offline_messages[a].1[b],
                    ).len() <= u32::MAX,
                forall|a: int, b: int|
                    0 <= a < k && 0 <= b < m.retained_messages[a].1.len() ==> encode_publish_content(
                        #[trigger] m.retained_messages[a].1[b],
                    ).len() <= u32::MAX,
            decreases self.retained_messages.len() - k,
        {
            assert(m.retained_messages[k as int] == self.retained_messages@[k as int]@);
            if !queue_fits(&self.retained_messages[k].messages) {
                proof {
                    let msgs = publishes_view(self.retained_messages@[k as int].messages@);
                    let j = choose|j: int| 0 <= j < msgs.len() && !(encode_publish_content(#[trigger] msgs[j]).len() <= u32::MAX);
                    assert(m.retained_messages[k as int].1 == msgs);
                    assert(encode_publish_content(m.retained_messages[k as int].1[j]).len() > u32::MAX);
                }
                return false;
            }
            k = k + 1;
        }
        true
    }

    /// Serializes the task handler data to a string, or gives `None` when a message it holds is
    /// too long to be written as a packet.
    pub fn try_serialize(&self, key: &[u8]) -> (serialized_data: Option<String>)
        requires
            key@.len() == 32,
        ensures
            match serialized_data {
                Some(text) => is_backup_of(text@, backup_records(self@), key@),
                None => !messages_fit(self@),
            },
    {
        if self.messages_fit_check() {
            Some(self.serialize(key))
        } else {
            None
        }
    }

    /// Serialize the task handler data to a string: a line for each queued message, each
    /// retained message and each subscription, with the messages sent under the key.
    pub fn serialize(&self, key: &[u8]) -> (serialized_data: String)
        requires
            key@.len() == 32,
            messages_fit(self@),
        ensures
            is_backup_of(serialized_data@, backup_records(self@), key@),
    {
        let ghost m = self@;
        let ghost mut values: Seq<Seq<u8>> = Seq::empty();
        let ghost mut records: Seq<BackupRecord> = Seq::empty();
        let mut serialized_data = String::new();

        // Serialize offline_messages
        let mut i: usize = 0;
        while i < self.offline_messages.len()
            invariant
                i <= self.offline_messages.len(),
                m == self@,
                key@.len() == 32,
                messages_fit(m),
                records == offline_records(m.offline_messages.take(i as int)),
                values.len() == records.len(),
                forall|j: int| 0 <= j < records.len() ==> record_value(#[trigger] records[j], values[j], key@),
                serialized_data@ == backup_text(records, values),
            decreases self.offline_messages.len() - i,
        {
            let queue = &self.offline_messages[i];
            let ghost entry = m.offline_messages[i as int];
            assert(entry == queue@);
            let ghost start = records;
            let mut j: usize = 0;
            while j < queue.messages.len()
                invariant
                    j <= queue.messages.len(),
                    i < self.offline_messages.len(),
                    queue@ == entry,
                    m == self@,
                    entry == m.offline_messages[i as int],
                    key@.len() == 32,
                    messages_fit(m),
                    records == start + entry.1.take(j as int).map_values(|p: PublishModel| BackupRecord::Offline(entry.0, p)),
                    values.len() == records.len(),
                    forall|k: int| 0 <= k < records.len() ==> record_value(#[trigger] records[k], values[k], key@),
                    serialized_data@ == backup_text(records, values),
                decreases queue.messages.len() - j,
            {
                assert(entry.1[j as int] == queue.messages@[j as int]@);
                assert(encode_publish_content(entry.1[j as int]).len() <= u32::MAX);
                let bytes = queue.messages[j].to_bytes(key);
                let ghost record = BackupRecord::Offline(entry.0, entry.1[j as int]);
                push_record_line(&mut serialized_data, "O", queue.client_id.as_slice(), bytes.as_slice());
                proof {
                    lemma_backup_text_push(records, values, record, bytes@);
                    records = records.push(record);
                    values = values.push(bytes@);
                    assert(entry.1.take(j + 1).map_values(|p: PublishModel| BackupRecord::Offline(entry.0, p))
                        =~= entry.1.take(j as int).map_values(|p: PublishModel| BackupRecord::Offline(entry.0, p)).push(record));
                }
                j = j + 1;
            }
            proof {
                assert(entry.1.take(j as int) =~= entry.1);
                assert(m.offline_messages.take(i + 1).drop_last() =~= m.offline_messages.take(i as int));
            }
            i = i + 1;
        }
        proof {
            assert(m.offline_messages.take(i as int) =~= m.offline_messages);
        }
        let ghost offline_part = records;

        // Serialize retained_messages
        let mut i: usize = 0;
        while i < self.retained_messages.len()
            invariant
                i <= self.retained_messages.len(),
                m == self@,
                key@.len() == 32,
                messages_fit(m),
                records == offline_part + retained_records(m.retained_messages.take(i as int)),
                values.len() == records.len(),
                forall|j: int| 0 <= j < records.len() ==> record_value(#[trigger] records[j], values[j], key@),
                serialized_data@ == backup_text(records, values),
            decreases self.retained_messages.len() - i,
        {
            let queue = &self.retained_messages[i];
            let ghost entry = m.retained_messages[i as int];
            assert(entry == queue@);
            let topic_bytes = queue.topic.to_bytes();
            let ghost start = records;
            let mut j: usize = 0;
            while j < queue.messages.len()
                invariant
                    j <= queue.messages.len(),
                    i < self.retained_messages.len(),
                    queue@ == entry,
                    topic_bytes@ == encode_topic_name(entry.0),
                    m == self@,
                    entry == m.retained_messages[i as int],
                    key@.len() == 32,
                    messages_fit(m),
                    records == start + entry.1.take(j as int).map_values(|p: PublishModel| BackupRecord::Retained(entry.0, p)),
                    values.len() == records.len(),
                    forall|k: int| 0 <= k < records.len() ==> record_value(#[trigger] records[k], values[k], key@),
                    serialized_data@ == backup_text(records, values),
                decreases queue.messages.len() - j,
            {
                assert(entry.1[j as int] == queue.messages@[j as int]@);
                assert(encode_publish_content(entry.1[j as int]).len() <= u32::MAX);
                let bytes = queue.messages[j].to_bytes(key);
                let ghost record = BackupRecord::Retained(entry.0, entry.1[j as int]);
                push_record_line(&mut serialized_data, "R", topic_bytes.as_slice(), bytes.as_slice());
                proof {
                    lemma_backup_text_push(records, values, record, bytes@);
                    records = records.push(record);
                    values = values.push(bytes@);
                    assert(entry.1.take(j + 1).map_values(|p: PublishModel| BackupRecord::Retained(entry.0, p))
                        =~= entry.1.take(j as int).map_values(|p: PublishModel| BackupRecord::Retained(entry.0, p)).push(record));
                }
                j = j + 1;
            }
            proof {
                assert(entry.1.take(j as int) =~= entry.1);
                assert(m.retained_messages.take(i + 1).drop_last() =~= m.retained_messages.take(i as int));
                assert(offline_part + retained_records(m.retained_messages.take(i + 1)) =~= start + entry.1.map_values(
                    |p: PublishModel| BackupRecord::Retained(entry.0, p),
                ));
            }
            i = i + 1;
        }
        proof {
            assert(m.retained_messages.take(i as int) =~= m.retained_messages);
        }
        let ghost stored_part = records;

        // Serialize clients
        let mut i: usize = 0;
        while i < self.clients.len()
            invariant
                i <= self.clients.len(),
                m == self@,
                key@.len() == 32,
                records == stored_part + subscription_records(m.clients.take(i as int)),
                values.len() == records.len(),
                forall|j: int| 0 <= j < records.len() ==> record_value(#[trigger] records[j], values[j], key@),
                serialized_data@ == backup_text(records, values),
            decreases self.clients.len() - i,
        {
            let client = &self.clients[i];
            let ghost entry = m.clients[i as int];
            assert(entry == client@);
            let id = client.id();
            let ghost start = records;
            let mut j: usize = 0;
            while j < client.subscriptions.len()
                invariant
                    j <= client.subscriptions.len(),
                    i < self.clients.len(),
                    client@ == entry,
                    id@ == entry.id,
                    m == self@,
                    entry == m.clients[i as int],
                    key@.len() == 32,
                    records == start + entry.subscriptions.take(j as int).map_values(
                        |f: TopicFilterModel| BackupRecord::Subscription(entry.id, f),
                    ),
                    values.len() == records.len(),
                    forall|k: int| 0 <= k < records.len() ==> record_value(#[trigger] records[k], values[k], key@),
                    serialized_data@ == backup_text(records, values),
                decreases client.subscriptions.len() - j,
            {
                assert(entry.subscriptions[j as int] == client.subscriptions@[j as int]@);
                let bytes = client.subscriptions[j].to_bytes();
                let ghost record = BackupRecord::Subscription(entry.id, entry.subscriptions[j as int]);
                push_record_line(&mut serialized_data, "C", id.as_slice(), bytes.as_slice());
                proof {
                    lemma_backup_text_push(records, values, record, bytes@);
                    records = records.push(record);
                    values = values.push(bytes@);
                    assert(entry.subscriptions.take(j + 1).map_values(|f: TopicFilterModel| BackupRecord::Subscription(entry.id, f))
                        =~= entry.subscriptions.take(j as int).map_values(
                        |f: TopicFilterModel| BackupRecord::Subscription(entry.id, f),
                    ).push(record));
                }
                j = j + 1;
            }
            proof {
                assert(entry.subscriptions.take(j as int) =~= entry.subscriptions);
                assert(m.clients.take(i + 1).drop_last() =~= m.clients.take(i as int));
                assert(stored_part + subscription_records(m.clients.take(i + 1)) =~= start + entry.subscriptions.map_values(
                    |f: TopicFilterModel| BackupRecord::Subscription(entry.id, f),
                ));
            }
            i = i + 1;
        }
        proof {
            assert(m.clients.take(i as int) =~= m.clients);
            assert(records =~= backup_records(m));
        }
        serialized_data
    }

}

/// Every message held fits in a packet.
pub open spec fn messages_fit(m: TaskHandlerModel) -> bool {
    &&& forall|i: int, j: int|
        0 <= i < m.offline_messages.len() && 0 <= j < m.offline_messages[i].1.len() ==> encode_publish_content(
            #[trigger] m.offline_messages[i].1[j],
        ).len() <= u32::MAX
    &&& forall|i: int, j: int|
        0 <= i < m.retained_messages.len() && 0 <= j < m.retained_messages[i].1.len() ==> encode_publish_content(
            #[trigger] m.retained_messages[i].1[j],
        ).len() <= u32::MAX
}

/// The text of records with one more is their text followed by its line.
proof fn lemma_backup_text_push(records: Seq<BackupRecord>, values: Seq<Seq<u8>>, r: BackupRecord, v: Seq<u8>)
    requires
        records.len() == values.len(),
    ensures
        backup_text(records.push(r), values.push(v)) == backup_text(records, values) + record_line(r, v),
{
    assert(records.push(r).drop_last() =~= records);
    assert(values.push(v).drop_last() =~= values);
}

/// Once a line cannot be read, restoring more lines cannot either.
proof fn lemma_restore_lines_stops(lines: Seq<Seq<u8>>, k: int, key: Seq<u8>)
    requires
        0 < k <= lines.len(),
        restore_lines(lines.take(k), key) is None,
    ensures
        restore_lines(lines, key) is None,
    decreases lines.len() - k,
{
    if k < lines.len() {
        assert(lines.take(k + 1).drop_last() =~= lines.take(k));
        lemma_restore_lines_stops(lines, k + 1, key);
    } else {
        assert(lines.take(k) =~= lines);
    }
}

/// A client subscribed to a topic is among its subscribers.
proof fn lemma_subscribers_contains(clients: Seq<ClientModel>, topic: TopicNameModel, i: int)
    requires
        0 <= i < clients.len(),
        subscribed_to(clients[i].subscriptions, topic),
    ensures
        subscribers(clients, topic).contains(clients[i].id),
    decreases clients.len(),
{
    if i == clients.len() - 1 {
        let subs = subscribers(clients, topic);
        assert(subs.last() == clients[i].id);
        assert(subs[subs.len() - 1] == clients[i].id);
    } else {
        lemma_subscribers_contains(clients.drop_last(), topic, i);
        let rest = subscribers(clients.drop_last(), topic);
        let k = choose|k: int| 0 <= k < rest.len() && rest[k] == clients[i].id;
        if subscribed_to(clients.last().subscriptions, topic) {
            assert(subscribers(clients, topic)[k] == clients[i].id);
        }
    }
}

/// Every connected subscriber gets a send of the message.
proof fn lemma_delivery_sends_contains(subs: Seq<Seq<u8>>, active: Seq<Seq<u8>>, p: PublishModel, id: Seq<u8>)
    requires
        subs.contains(id),
        active.contains(id),
    ensures
        delivery_sends(subs, active, p).contains(ActionModel::Send(id, PacketModel::Publish(p))),
    decreases subs.len(),
{
    let target = ActionModel::Send(id, PacketModel::Publish(p));
    if subs.last() == id {
        let sends = delivery_sends(subs, active, p);
        assert(sends[sends.len() - 1] == target);
    } else {
        let k = choose|k: int| 0 <= k < subs.len() && subs[k] == id;
        assert(subs.drop_last()[k] == id);
        lemma_delivery_sends_contains(subs.drop_last(), active, p, id);
        let rest = delivery_sends(subs.drop_last(), active, p);
        let j = choose|j: int| 0 <= j < rest.len() && rest[j] == target;
        assert(delivery_sends(subs, active, p)[j] == target);
    }
}

/// Queueing a message for any key keeps a queue that ends with that message ending with it.
proof fn lemma_enqueue_keeps_last<K>(queues: Seq<(K, Seq<PublishModel>)>, key: K, other: K, p: PublishModel)
    requires
        exists|i: int| 0 <= i < queues.len() && queues[i].0 == key && queues[i].1.len() > 0 && queues[i].1.last() == p,
    ensures
        exists|i: int| 0 <= i < enqueue(queues, other, p).len() && enqueue(queues, other, p)[i].0 == key
            && enqueue(queues, other, p)[i].1.len() > 0 && enqueue(queues, other, p)[i].1.last() == p,
{
    let i = choose|i: int| 0 <= i < queues.len() && queues[i].0 == key && queues[i].1.len() > 0 && queues[i].1.last() == p;
    let after = enqueue(queues, other, p);
    match queue_position(queues, other) {
        Some(j) => {
            if j == i {
                assert(after[i].0 == key && after[i].1.len() > 0 && after[i].1.last() == p);
            } else {
                assert(after[i] == queues[i]);
            }
        },
        None => {
            assert(after[i] == queues[i]);
        },
    }
}

/// Queueing a message for a key leaves a queue for that key that ends with the message.
proof fn lemma_enqueue_last<K>(queues: Seq<(K, Seq<PublishModel>)>, key: K, p: PublishModel)
    ensures
        exists|i: int| 0 <= i < enqueue(queues, key, p).len() && enqueue(queues, key, p)[i].0 == key
            && enqueue(queues, key, p)[i].1.len() > 0 && enqueue(queues, key, p)[i].1.last() == p,
{
    let after = enqueue(queues, key, p);
    match queue_position(queues, key) {
        Some(j) => {
            assert(after[j].0 == key && after[j].1.last() == p);
        },
        None => {
            assert(after[queues.len() as int].0 == key && after[queues.len() as int].1.last() == p);
        },
    }
}

/// Every subscriber that is not connected ends up with a queue that ends with the message,
/// when it is listed once.
proof fn lemma_queue_for_offline_contains(
    offline: Seq<(Seq<u8>, Seq<PublishModel>)>,
    subs: Seq<Seq<u8>>,
    active: Seq<Seq<u8>>,
    p: PublishModel,
    id: Seq<u8>,
)
    requires
        subs.contains(id),
        !active.contains(id),
    ensures
        exists|i: int| 0 <= i < queue_for_offline(offline, subs, active, p).len()
            && queue_for_offline(offline, subs, active, p)[i].0 == id
            && queue_for_offline(offline, subs, active, p)[i].1.len() > 0
            && queue_for_offline(offline, subs, active, p)[i].1.last() == p,
    decreases subs.len(),
{
    let before = queue_for_offline(offline, subs.drop_last(), active, p);
    let result = queue_for_offline(offline, subs, active, p);
    if subs.last() == id {
        lemma_enqueue_last(before, id, p);
        let e = enqueue(before, id, p);
        assert(result == e);
        let w = choose|w: int| 0 <= w < e.len() && e[w].0 == id && e[w].1.len() > 0 && e[w].1.last() == p;
        assert(0 <= w < result.len() && result[w].0 == id && result[w].1.len() > 0 && result[w].1.last() == p);
    } else {
        let k = choose|k: int| 0 <= k < subs.len() && subs[k] == id;
        assert(subs.drop_last()[k] == id);
        lemma_queue_for_offline_contains(offline, subs.drop_last(), active, p, id);
        if !active.contains(subs.last()) {
            lemma_enqueue_keeps_last(before, id, subs.last(), p);
            let e = enqueue(before, subs.last(), p);
            assert(result == e);
            let w = choose|w: int| 0 <= w < e.len() && e[w].0 == id && e[w].1.len() > 0 && e[w].1.last() == p;
            assert(0 <= w < result.len() && result[w].0 == id && result[w].1.len() > 0 && result[w].1.last() == p);
        } else {
            assert(result == before);
        }
    }
}

/// A client subscribed to the topic of a message published on a topic that is not reserved
/// by the server gets the message: sent when it is connected, queued as its last message when
/// it is not (unless it published it itself, and got its queue at once).
pub proof fn lemma_subscriber_gets_publish(m: TaskHandlerModel, p: PublishModel, publisher: Seq<u8>, i: int)
    requires
        m.wf(),
        !p.topic.server_reserved,
        0 <= i < m.clients.len(),
        subscribed_to(m.clients[i].subscriptions, p.topic),
    ensures
        ({
            let (after, actions) = publish_outcome(m, p, publisher);
            let id = m.clients[i].id;
            &&& m.active_connections.contains(id) ==> actions.contains(ActionModel::Send(id, PacketModel::Publish(p)))
            &&& !m.active_connections.contains(id) && id != publisher ==> exists|q: int|
                0 <= q < after.offline_messages.len() && after.offline_messages[q].0 == id
                    && after.offline_messages[q].1.len() > 0 && after.offline_messages[q].1.last() == p
        }),
{
    let id = m.clients[i].id;
    let subs = subscribers(m.clients, p.topic);
    lemma_subscribers_contains(m.clients, p.topic, i);
    let (after, actions) = publish_outcome(m, p, publisher);
    let offline = queue_for_offline(m.offline_messages, subs, m.active_connections, p);
    let sent = seq![ActionModel::Info(publish_text(publisher, p))] + delivery_sends(subs, m.active_connections, p)
        + puback_actions(m.clients, p, publisher);
    let target = ActionModel::Send(id, PacketModel::Publish(p));
    if m.active_connections.contains(id) {
        lemma_delivery_sends_contains(subs, m.active_connections, p, id);
        let j = choose|j: int| 0 <= j < delivery_sends(subs, m.active_connections, p).len()
            && delivery_sends(subs, m.active_connections, p)[j] == target;
        assert(sent[j + 1] == target);
        assert(actions.contains(target)) by {
            match client_position(m.clients, publisher) {
                None => {
                    assert(actions[j + 1] == target);
                },
                Some(_) => match queue_position(offline, publisher) {
                    None => {
                        assert(actions[j + 1] == target);
                    },
                    Some(q) => {
                        assert(actions[j + 1] == target);
                    },
                },
            }
        }
    } else if id != publisher {
        lemma_queue_for_offline_contains(m.offline_messages, subs, m.active_connections, p, id);
        let k = choose|k: int| 0 <= k < offline.len() && offline[k].0 == id && offline[k].1.len() > 0 && offline[k].1.last() == p;
        match client_position(m.clients, publisher) {
            None => {
                assert(after.offline_messages[k] == offline[k]);
            },
            Some(_) => match queue_position(offline, publisher) {
                None => {
                    assert(after.offline_messages[k] == offline[k]);
                },
                Some(q) => {
                    assert(offline[q].0 == publisher);
                    assert(q != k);
                    assert(after.offline_messages[k] == offline[k]);
                },
            },
        }
    }
}

/// A retained message on a topic that a filter matches is among the sends for that filter.
proof fn lemma_matching_sends_contains(
    filter: TopicFilterModel,
    retained: Seq<(TopicNameModel, Seq<PublishModel>)>,
    client_id: Seq<u8>,
    k: int,
    p: PublishModel,
)
    requires
        0 <= k < retained.len(),
        filter_matches(filter, retained[k].0),
        retained[k].1.contains(p),
    ensures
        matching_sends(filter, retained, client_id).contains(ActionModel::Send(client_id, PacketModel::Publish(p))),
    decreases retained.len(),
{
    let target = ActionModel::Send(client_id, PacketModel::Publish(p));
    let rest = matching_sends(filter, retained.drop_last(), client_id);
    if k == retained.len() - 1 {
        let msgs = retained.last().1;
        let j = choose|j: int| 0 <= j < msgs.len() && msgs[j] == p;
        assert(sends_to(client_id, msgs)[j] == target);
        assert(matching_sends(filter, retained, client_id)[rest.len() + j] == target);
    } else {
        assert(retained.drop_last()[k] == retained[k]);
        lemma_matching_sends_contains(filter, retained.drop_last(), client_id, k, p);
        let j = choose|j: int| 0 <= j < rest.len() && rest[j] == target;
        assert(matching_sends(filter, retained, client_id)[j] == target);
    }
}

/// A retained message that one of the new filters matches is among the sends to the subscriber.
proof fn lemma_retained_sends_contains(
    filters: Seq<TopicFilterModel>,
    retained: Seq<(TopicNameModel, Seq<PublishModel>)>,
    client_id: Seq<u8>,
    f: int,
    k: int,
    p: PublishModel,
)
    requires
        0 <= f < filters.len(),
        0 <= k < retained.len(),
        filter_matches(filters[f], retained[k].0),
        retained[k].1.contains(p),
    ensures
        retained_sends(filters, retained, client_id).contains(ActionModel::Send(client_id, PacketModel::Publish(p))),
    decreases filters.len(),
{
    let target = ActionModel::Send(client_id, PacketModel::Publish(p));
    let rest = retained_sends(filters.drop_last(), retained, client_id);
    if f == filters.len() - 1 {
        lemma_matching_sends_contains(filters.last(), retained, client_id, k, p);
        let m = matching_sends(filters.last(), retained, client_id);
        let j = choose|j: int| 0 <= j < m.len() && m[j] == target;
        assert(retained_sends(filters, retained, client_id)[rest.len() + j] == target);
    } else {
        assert(filters.drop_last()[f] == filters[f]);
        lemma_retained_sends_contains(filters.drop_last(), retained, client_id, f, k, p);
        let j = choose|j: int| 0 <= j < rest.len() && rest[j] == target;
        assert(retained_sends(filters, retained, client_id)[j] == target);
    }
}

/// A message published with the retain flag, on a topic that is not reserved by the server,
/// is sent to a known client that subscribes afterwards with a filter that matches its topic.
pub proof fn lemma_retained_message_reaches_later_subscriber(
    m: TaskHandlerModel,
    p: PublishModel,
    publisher: Seq<u8>,
    subscribe: SubscribeModel,
    i: int,
    f: int,
)
    requires
        m.wf(),
        !p.topic.server_reserved,
        p.retain,
        0 <= i < m.clients.len(),
        0 <= f < subscribe.topics.len(),
        filter_matches(subscribe.topics[f].0, p.topic),
    ensures
        ({
            let (after_publish, _) = publish_outcome(m, p, publisher);
            let (_, actions) = subscribe_outcome(after_publish, subscribe, m.clients[i].id);
            actions.contains(ActionModel::Send(m.clients[i].id, PacketModel::Publish(p)))
        }),
{
    let id = m.clients[i].id;
    let (after_publish, _) = publish_outcome(m, p, publisher);
    let retained = enqueue(m.retained_messages, p.topic, p);
    assert(after_publish.retained_messages == retained);
    assert(after_publish.clients == m.clients);
    lemma_enqueue_last(m.retained_messages, p.topic, p);
    let k = choose|k: int| 0 <= k < retained.len() && retained[k].0 == p.topic && retained[k].1.len() > 0 && retained[k].1.last() == p;
    assert(retained[k].1[retained[k].1.len() - 1] == p);
    let filters = subscription_filters(subscribe.topics);
    assert(filters[f] == subscribe.topics[f].0);
    lemma_retained_sends_contains(filters, retained, id, f, k, p);
    let position = client_position(m.clients, id);
    assert(position is Some);
    let j = position->0;
    assert(m.clients[j].id == id);
    let head = seq![
        ActionModel::Send(id, PacketModel::Suback(SubackModel {
            packet_identifier: subscribe.packet_identifier,
            suback_return_codes: seq![SubackReturnCode::SuccessMaximumQoS0],
        })),
        ActionModel::Info(subscription_message_text(id, filters)),
    ];
    let sends = retained_sends(filters, retained, id);
    let target = ActionModel::Send(id, PacketModel::Publish(p));
    let w = choose|w: int| 0 <= w < sends.len() && sends[w] == target;
    assert((head + sends)[2 + w] == target);
}

/// Unsubscribing from a filter leaves the client no subscription equal to it.
pub proof fn lemma_unsubscribed_filter_removed(subscriptions: Seq<TopicFilterModel>, removed: Seq<TopicFilterModel>, f: int)
    requires
        0 <= f < removed.len(),
    ensures
        !without_filters(subscriptions, removed).contains(removed[f]),
    decreases removed.len(),
{
    if f == removed.len() - 1 {
        lemma_without_filter_excludes(without_filters(subscriptions, removed.drop_last()), removed.last());
    } else {
        assert(removed.drop_last()[f] == removed[f]);
        lemma_unsubscribed_filter_removed(subscriptions, removed.drop_last(), f);
        lemma_without_filter_subset(without_filters(subscriptions, removed.drop_last()), removed.last(), removed[f]);
    }
}

/// Removing a filter leaves no subscription equal to it.
proof fn lemma_without_filter_excludes(subscriptions: Seq<TopicFilterModel>, filter: TopicFilterModel)
    ensures
        !without_filter(subscriptions, filter).contains(filter),
    decreases subscriptions.len(),
{
    if subscriptions.len() > 0 {
        lemma_without_filter_excludes(subscriptions.drop_last(), filter);
        let rest = without_filter(subscriptions.drop_last(), filter);
        if subscriptions.last() != filter {
            let result = rest.push(subscriptions.last());
            assert forall|j: int| 0 <= j < result.len() implies result[j] != filter by {
                if j < rest.len() {
                    assert(result[j] == rest[j]);
                }
            }
        }
    }
}

/// Removing a filter adds no subscription.
proof fn lemma_without_filter_subset(subscriptions: Seq<TopicFilterModel>, filter: TopicFilterModel, other: TopicFilterModel)
    requires
        !subscriptions.contains(other),
    ensures
        !without_filter(subscriptions, filter).contains(other),
    decreases subscriptions.len(),
{
    if subscriptions.len() > 0 {
        assert(!subscriptions.drop_last().contains(other)) by {
            if subscriptions.drop_last().contains(other) {
                let j = choose|j: int| 0 <= j < subscriptions.drop_last().len() && subscriptions.drop_last()[j] == other;
                assert(subscriptions[j] == other);
            }
        }
        lemma_without_filter_subset(subscriptions.drop_last(), filter, other);
        let rest = without_filter(subscriptions.drop_last(), filter);
        if subscriptions.last() != filter {
            let result = rest.push(subscriptions.last());
            assert(subscriptions.last() != other) by {
                assert(subscriptions[subscriptions.len() - 1] == subscriptions.last());
            }
            assert forall|j: int| 0 <= j < result.len() implies result[j] != other by {
                if j < rest.len() {
                    assert(result[j] == rest[j]);
                }
            }
        }
    }
}

/// Whether an action that sends a message to a client who just subscribed is one it is owed:
/// a message sent to it was retained on a topic that one of its new filters matches. Any
/// other action is no send of a message.
pub open spec fn owed_retained_send(
    a: ActionModel,
    filters: Seq<TopicFilterModel>,
    retained: Seq<(TopicNameModel, Seq<PublishModel>)>,
    client_id: Seq<u8>,
) -> bool {
    match a {
        ActionModel::Send(to, PacketModel::Publish(p)) => to == client_id && exists|k: int, i: int|
            0 <= k < retained.len() && 0 <= i < filters.len() && #[trigger] retained[k].1.contains(p)
                && filter_matches(#[trigger] filters[i], retained[k].0),
        _ => true,
    }
}

proof fn lemma_matching_sends_owed(
    filters: Seq<TopicFilterModel>,
    i: int,
    retained: Seq<(TopicNameModel, Seq<PublishModel>)>,
    client_id: Seq<u8>,
)
    requires
        0 <= i < filters.len(),
    ensures
        forall|j: int| 0 <= j < matching_sends(filters[i], retained, client_id).len() ==> owed_retained_send(
            #[trigger] matching_sends(filters[i], retained, client_id)[j],
            filters,
            retained,
            client_id,
        ),
    decreases retained.len(),
{
    let filter = filters[i];
    if retained.len() > 0 {
        let init = retained.drop_last();
        let last = retained.last();
        let n = retained.len() - 1;
        lemma_matching_sends_owed(filters, i, init, client_id);
        let front = matching_sends(filter, init, client_id);
        let tail = if filter_matches(filter, last.0) {
            sends_to(client_id, last.1)
        } else {
            Seq::<ActionModel>::empty()
        };
        let all = matching_sends(filter, retained, client_id);
        assert(all == front + tail);
        assert forall|j: int| 0 <= j < all.len() implies owed_retained_send(#[trigger] all[j], filters, retained, client_id) by {
            if j < front.len() {
                assert(all[j] == front[j]);
                assert(owed_retained_send(front[j], filters, init, client_id));
                if let ActionModel::Send(to, PacketModel::Publish(p)) = front[j] {
                    let (k, x) = choose|k: int, x: int|
                        0 <= k < init.len() && 0 <= x < filters.len() && #[trigger] init[k].1.contains(p)
                            && filter_matches(#[trigger] filters[x], init[k].0);
                    assert(retained[k] == init[k]);
                    assert(retained[k].1.contains(p) && filter_matches(filters[x], retained[k].0));
                }
            } else {
                let t = j - front.len();
                assert(all[j] == tail[t]);
                let p = last.1[t];
                assert(tail[t] == ActionModel::Send(client_id, PacketModel::Publish(p)));
                assert(retained[n] == last);
                assert(retained[n].1.contains(p));
                assert(filter_matches(filters[i], retained[n].0));
            }
        }
    }
}

proof fn lemma_retained_sends_owed(
    filters: Seq<TopicFilterModel>,
    upto: int,
    retained: Seq<(TopicNameModel, Seq<PublishModel>)>,
    client_id: Seq<u8>,
)
    requires
        0 <= upto <= filters.len(),
    ensures
        forall|j: int| 0 <= j < retained_sends(filters.take(upto), retained, client_id).len() ==> owed_retained_send(
            #[trigger] retained_sends(filters.take(upto), retained, client_id)[j],
            filters,
            retained,
            client_id,
        ),
    decreases upto,
{
    if upto > 0 {
        let part = filters.take(upto);
        assert(part.drop_last() =~= filters.take(upto - 1));
        assert(part.last() == filters[upto - 1]);
        lemma_retained_sends_owed(filters, upto - 1, retained, client_id);
        lemma_matching_sends_owed(filters, upto - 1, retained, client_id);
        let front = retained_sends(filters.take(upto - 1), retained, client_id);
        let back = matching_sends(filters[upto - 1], retained, client_id);
        let all = retained_sends(part, retained, client_id);
        assert(all == front + back);
        assert forall|j: int| 0 <= j < all.len() implies owed_retained_send(#[trigger] all[j], filters, retained, client_id) by {
            if j < front.len() {
                assert(all[j] == front[j]);
            } else {
                assert(all[j] == back[j - front.len()]);
            }
        }
    }
}

/// Subscribing sends the new subscriber only what it is owed: every message that a
/// subscription sends to a client was retained on a topic that one of the new filters matches,
/// and it goes to that client.
pub proof fn lemma_subscribe_sends_only_matching_retained(m: TaskHandlerModel, subscribe: SubscribeModel, client_id: Seq<u8>)
    ensures
        forall|j: int| 0 <= j < subscribe_outcome(m, subscribe, client_id).1.len() ==> owed_retained_send(
            #[trigger] subscribe_outcome(m, subscribe, client_id).1[j],
            subscription_filters(subscribe.topics),
            m.retained_messages,
            client_id,
        ),
{
    let filters = subscription_filters(subscribe.topics);
    lemma_retained_sends_owed(filters, filters.len() as int, m.retained_messages, client_id);
    assert(filters.take(filters.len() as int) =~= filters);
    let actions = subscribe_outcome(m, subscribe, client_id).1;
    if client_position(m.clients, client_id) is Some {
        let sends = retained_sends(filters, m.retained_messages, client_id);
        assert forall|j: int| 0 <= j < actions.len() implies owed_retained_send(
            #[trigger] actions[j],
            filters,
            m.retained_messages,
            client_id,
        ) by {
            if j >= 2 {
                assert(actions[j] == sends[j - 2]);
            }
        }
    }
}

/// Unsubscribing from several filters keeps exactly the subscriptions that are none of them.
pub proof fn lemma_unsubscribe_keeps_others(subscriptions: Seq<TopicFilterModel>, removed: Seq<TopicFilterModel>)
    ensures
        forall|g: TopicFilterModel| #[trigger] without_filters(subscriptions, removed).contains(g) <==> (subscriptions.contains(g)
            && !removed.contains(g)),
    decreases removed.len(),
{
    if removed.len() > 0 {
        let init = removed.drop_last();
        let last = removed.last();
        lemma_unsubscribe_keeps_others(subscriptions, init);
        crate::server::client::lemma_without_filter_keeps_others(without_filters(subscriptions, init), last);
        assert forall|g: TopicFilterModel| #[trigger] without_filters(subscriptions, removed).contains(g) <==> (
            subscriptions.contains(g) && !removed.contains(g)) by {
            assert(removed == init.push(last));
            if removed.contains(g) {
                let k = choose|k: int| 0 <= k < removed.len() && removed[k] == g;
                if k < init.len() {
                    assert(init[k] == g);
                }
            }
            if init.contains(g) {
                let k = choose|k: int| 0 <= k < init.len() && init[k] == g;
                assert(removed[k] == g);
            }
            if g == last {
                assert(removed[removed.len() - 1] == g);
            }
        }
    }
}

/// Subscribing changes the subscriptions of the subscriber alone: it keeps every filter it had
/// and gains every new one; every other client keeps its subscriptions, and the clients stay
/// the same clients.
pub proof fn lemma_subscribe_adds_filters(m: TaskHandlerModel, subscribe: SubscribeModel, client_id: Seq<u8>, j: int)
    requires
        0 <= j < m.clients.len(),
    ensures
        ({
            let after = subscribe_outcome(m, subscribe, client_id).0;
            &&& after.clients.len() == m.clients.len()
            &&& after.clients[j].id == m.clients[j].id
            &&& m.clients[j].id != client_id ==> after.clients[j] == m.clients[j]
            &&& m.clients[j].id == client_id && unique_clients(m.clients) ==> {
                &&& forall|g: TopicFilterModel| #[trigger] m.clients[j].subscriptions.contains(g)
                    ==> after.clients[j].subscriptions.contains(g)
                &&& forall|k: int| 0 <= k < subscribe.topics.len() ==> after.clients[j].subscriptions.contains(
                    #[trigger] subscribe.topics[k].0,
                )
            }
        }),
{
    let filters = subscription_filters(subscribe.topics);
    if let Some(i) = client_position(m.clients, client_id) {
        if m.clients[j].id == client_id && unique_clients(m.clients) {
            assert(m.clients[i].id == client_id);
            assert(i == j);
            let old_subs = m.clients[j].subscriptions;
            let new_subs = old_subs + filters;
            assert forall|g: TopicFilterModel| #[trigger] old_subs.contains(g) implies new_subs.contains(g) by {
                let k = choose|k: int| 0 <= k < old_subs.len() && old_subs[k] == g;
                assert(new_subs[k] == g);
            }
            assert forall|k: int| 0 <= k < subscribe.topics.len() implies new_subs.contains(#[trigger] subscribe.topics[k].0) by {
                assert(filters[k] == subscribe.topics[k].0);
                assert(new_subs[old_subs.len() + k] == subscribe.topics[k].0);
            }
        }
    }
}

/// Unsubscribing changes the subscriptions of that client alone: it keeps exactly the filters
/// that are none of those it unsubscribes from; every other client keeps its subscriptions.
pub proof fn lemma_unsubscribe_changes_only_client(m: TaskHandlerModel, unsubscribe: UnsubscribeModel, client_id: Seq<u8>, j: int)
    requires
        0 <= j < m.clients.len(),
    ensures
        ({
            let after = unsubscribe_outcome(m, unsubscribe, client_id).0;
            &&& after.clients.len() == m.clients.len()
            &&& m.clients[j].id != client_id ==> after.clients[j] == m.clients[j]
            &&& m.clients[j].id == client_id && unique_clients(m.clients) ==> forall|g: TopicFilterModel|
                #[trigger] after.clients[j].subscriptions.contains(g) <==> (m.clients[j].subscriptions.contains(g)
                    && !unsubscribe.topics.contains(g))
        }),
{
    lemma_unsubscribe_keeps_others(m.clients[j].subscriptions, unsubscribe.topics);
    if let Some(i) = client_position(m.clients, client_id) {
        assert(m.clients[i].id == client_id);
    }
}

} // verus!
