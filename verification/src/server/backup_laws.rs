use vstd::prelude::*;

use crate::model::components::topic_filter::TopicFilterModel;
use crate::model::components::topic_name::TopicNameModel;
use crate::model::packets::publish::PublishModel;
use crate::bytes::{join_bytes, split_bytes};
use crate::model::components::topic_filter::{decode_topic_filter, encode_topic_filter, topic_filter_wf};
use crate::model::components::topic_name::{decode_topic_name, encode_topic_name, topic_name_wf};
use crate::model::components::remaining_length::MAX_LENGTH;
use crate::model::packet::PacketModel;
use crate::model::packets::publish::{encode_publish_content, publish_wf};
use crate::server::backup::{
    backup_records, backup_text, empty_state, hex_pairs, is_backup_of, restore_backup, hex_text, hex_value, offline_records, record_line,
    lemma_hex_roundtrip, lemma_hex_text_digits, record_value, restore_line, restore_lines, restore_subscription, retained_records,
    subscription_records, text_lines, BackupRecord, CARRIAGE_RETURN, CLIENTS_TAG, FIELD_SEPARATOR, LINE_FEED,
    OFFLINE_MESSAGES_TAG, RETAINED_MESSAGES_TAG,
};
use crate::server::client::ClientModel;
use crate::server::task_handler::{client_position, enqueue, queue_position, unique_clients, unique_keys, TaskHandlerModel};

verus! {

/// What restoring one record does to a state.
pub open spec fn apply_record(m: TaskHandlerModel, r: BackupRecord) -> TaskHandlerModel {
    match r {
        BackupRecord::Offline(id, p) => TaskHandlerModel {
            clients: m.clients,
            active_connections: m.active_connections,
            offline_messages: enqueue(m.offline_messages, id, p),
            retained_messages: m.retained_messages,
        },
        BackupRecord::Retained(topic, p) => TaskHandlerModel {
            clients: m.clients,
            active_connections: m.active_connections,
            offline_messages: m.offline_messages,
            retained_messages: enqueue(m.retained_messages, topic, p),
        },
        BackupRecord::Subscription(id, f) => TaskHandlerModel {
            clients: restore_subscription(m.clients, id, f),
            active_connections: m.active_connections,
            offline_messages: m.offline_messages,
            retained_messages: m.retained_messages,
        },
    }
}

/// What restoring records one after the other does to a state.
pub open spec fn apply_records(m: TaskHandlerModel, records: Seq<BackupRecord>) -> TaskHandlerModel
    decreases records.len(),
{
    if records.len() == 0 {
        m
    } else {
        apply_record(apply_records(m, records.drop_last()), records.last())
    }
}

/// The queues that hold at least one message, in order.
pub open spec fn nonempty_queues<K>(queues: Seq<(K, Seq<PublishModel>)>) -> Seq<(K, Seq<PublishModel>)>
    decreases queues.len(),
{
    if queues.len() == 0 {
        queues
    } else if queues.last().1.len() == 0 {
        nonempty_queues(queues.drop_last())
    } else {
        nonempty_queues(queues.drop_last()).push(queues.last())
    }
}

/// The clients that subscribed to something, in order.
pub open spec fn subscribed_clients(clients: Seq<ClientModel>) -> Seq<ClientModel>
    decreases clients.len(),
{
    if clients.len() == 0 {
        clients
    } else if clients.last().subscriptions.len() == 0 {
        subscribed_clients(clients.drop_last())
    } else {
        subscribed_clients(clients.drop_last()).push(clients.last())
    }
}

/// The state that a backup restores: the clients that subscribed to something, none
/// connected, and the queues that hold messages.
pub open spec fn restored_state(m: TaskHandlerModel) -> TaskHandlerModel {
    TaskHandlerModel {
        clients: subscribed_clients(m.clients),
        active_connections: Seq::<Seq<u8>>::empty(),
        offline_messages: nonempty_queues(m.offline_messages),
        retained_messages: nonempty_queues(m.retained_messages),
    }
}

/// Messages queued one after the other under a key.
pub open spec fn enqueue_all<K>(queues: Seq<(K, Seq<PublishModel>)>, key: K, messages: Seq<PublishModel>) -> Seq<(K, Seq<PublishModel>)>
    decreases messages.len(),
{
    if messages.len() == 0 {
        queues
    } else {
        enqueue(enqueue_all(queues, key, messages.drop_last()), key, messages.last())
    }
}

/// Subscriptions restored one after the other for a client.
pub open spec fn restore_all(clients: Seq<ClientModel>, id: Seq<u8>, filters: Seq<TopicFilterModel>) -> Seq<ClientModel>
    decreases filters.len(),
{
    if filters.len() == 0 {
        clients
    } else {
        restore_subscription(restore_all(clients, id, filters.drop_last()), id, filters.last())
    }
}

/// Restoring records one list after another is restoring them all.
proof fn lemma_apply_records_concat(m: TaskHandlerModel, first: Seq<BackupRecord>, second: Seq<BackupRecord>)
    ensures
        apply_records(m, first + second) == apply_records(apply_records(m, first), second),
    decreases second.len(),
{
    if second.len() == 0 {
        assert(first + second =~= first);
    } else {
        assert((first + second).drop_last() =~= first + second.drop_last());
        assert((first + second).last() == second.last());
        lemma_apply_records_concat(m, first, second.drop_last());
    }
}

/// Queueing messages under a key that has no queue yet adds one queue with them, after the
/// others.
proof fn lemma_enqueue_all_fresh<K>(queues: Seq<(K, Seq<PublishModel>)>, key: K, messages: Seq<PublishModel>)
    requires
        queue_position(queues, key) is None,
    ensures
        enqueue_all(queues, key, messages) == if messages.len() == 0 {
            queues
        } else {
            queues.push((key, messages))
        },
    decreases messages.len(),
{
    if messages.len() > 0 {
        lemma_enqueue_all_fresh(queues, key, messages.drop_last());
        let before = enqueue_all(queues, key, messages.drop_last());
        if messages.len() == 1 {
            assert(before == queues);
            assert(seq![messages.last()] =~= messages);
        } else {
            assert(before == queues.push((key, messages.drop_last())));
            assert(before[queues.len() as int].0 == key);
            let q = choose|i: int| 0 <= i < before.len() && before[i].0 == key;
            if q != queues.len() {
                assert(queues[q].0 == key);
                assert(false);
            }
            assert(messages.drop_last().push(messages.last()) =~= messages);
            assert(enqueue(before, key, messages.last()) =~= queues.push((key, messages)));
        }
    }
}

/// Restoring subscriptions for a client the state does not know adds it with them, after the
/// others.
proof fn lemma_restore_all_fresh(clients: Seq<ClientModel>, id: Seq<u8>, filters: Seq<TopicFilterModel>)
    requires
        client_position(clients, id) is None,
    ensures
        restore_all(clients, id, filters) == if filters.len() == 0 {
            clients
        } else {
            clients.push(ClientModel { id, subscriptions: filters })
        },
    decreases filters.len(),
{
    if filters.len() > 0 {
        lemma_restore_all_fresh(clients, id, filters.drop_last());
        let before = restore_all(clients, id, filters.drop_last());
        if filters.len() == 1 {
            assert(before == clients);
            assert(seq![filters.last()] =~= filters);
        } else {
            assert(before == clients.push(ClientModel { id, subscriptions: filters.drop_last() }));
            assert(before[clients.len() as int].id == id);
            let q = choose|i: int| 0 <= i < before.len() && before[i].id == id;
            if q != clients.len() {
                assert(clients[q].id == id);
                assert(false);
            }
            assert(filters.drop_last().push(filters.last()) =~= filters);
            assert(restore_subscription(before, id, filters.last()) =~= clients.push(ClientModel { id, subscriptions: filters }));
        }
    }
}

/// Restoring the records of the messages queued for a client queues them.
proof fn lemma_apply_offline_messages(m: TaskHandlerModel, id: Seq<u8>, messages: Seq<PublishModel>)
    ensures
        apply_records(m, messages.map_values(|p: PublishModel| BackupRecord::Offline(id, p))) == (TaskHandlerModel {
            clients: m.clients,
            active_connections: m.active_connections,
            offline_messages: enqueue_all(m.offline_messages, id, messages),
            retained_messages: m.retained_messages,
        }),
    decreases messages.len(),
{
    let records = messages.map_values(|p: PublishModel| BackupRecord::Offline(id, p));
    if messages.len() > 0 {
        assert(records.drop_last() =~= messages.drop_last().map_values(|p: PublishModel| BackupRecord::Offline(id, p)));
        lemma_apply_offline_messages(m, id, messages.drop_last());
    } else {
        assert(m.offline_messages == enqueue_all(m.offline_messages, id, messages));
    }
}

/// Restoring the records of the messages retained on a topic retains them.
proof fn lemma_apply_retained_messages(m: TaskHandlerModel, topic: TopicNameModel, messages: Seq<PublishModel>)
    ensures
        apply_records(m, messages.map_values(|p: PublishModel| BackupRecord::Retained(topic, p))) == (TaskHandlerModel {
            clients: m.clients,
            active_connections: m.active_connections,
            offline_messages: m.offline_messages,
            retained_messages: enqueue_all(m.retained_messages, topic, messages),
        }),
    decreases messages.len(),
{
    let records = messages.map_values(|p: PublishModel| BackupRecord::Retained(topic, p));
    if messages.len() > 0 {
        assert(records.drop_last() =~= messages.drop_last().map_values(|p: PublishModel| BackupRecord::Retained(topic, p)));
        lemma_apply_retained_messages(m, topic, messages.drop_last());
    } else {
        assert(m.retained_messages == enqueue_all(m.retained_messages, topic, messages));
    }
}

/// Restoring the records of the subscriptions of a client restores them.
proof fn lemma_apply_subscriptions(m: TaskHandlerModel, id: Seq<u8>, filters: Seq<TopicFilterModel>)
    ensures
        apply_records(m, filters.map_values(|f: TopicFilterModel| BackupRecord::Subscription(id, f))) == (TaskHandlerModel {
            clients: restore_all(m.clients, id, filters),
            active_connections: m.active_connections,
            offline_messages: m.offline_messages,
            retained_messages: m.retained_messages,
        }),
    decreases filters.len(),
{
    let records = filters.map_values(|f: TopicFilterModel| BackupRecord::Subscription(id, f));
    if filters.len() > 0 {
        assert(records.drop_last() =~= filters.drop_last().map_values(|f: TopicFilterModel| BackupRecord::Subscription(id, f)));
        lemma_apply_subscriptions(m, id, filters.drop_last());
    } else {
        assert(m.clients == restore_all(m.clients, id, filters));
    }
}

/// Every queue that holds messages is one of the queues.
proof fn lemma_nonempty_queues_keys<K>(queues: Seq<(K, Seq<PublishModel>)>, key: K)
    requires
        forall|i: int| 0 <= i < queues.len() ==> queues[i].0 != key,
    ensures
        queue_position(nonempty_queues(queues), key) is None,
    decreases queues.len(),
{
    if queues.len() > 0 {
        lemma_nonempty_queues_keys(queues.drop_last(), key);
        let rest = nonempty_queues(queues.drop_last());
        if queues.last().1.len() > 0 {
            let all = rest.push(queues.last());
            if exists|i: int| 0 <= i < all.len() && all[i].0 == key {
                let i = choose|i: int| 0 <= i < all.len() && all[i].0 == key;
                if i < rest.len() {
                    assert(rest[i].0 == key);
                    assert(false);
                } else {
                    assert(queues[queues.len() - 1].0 == key);
                }
            }
        }
    }
}

/// Every client that subscribed to something is one of the clients.
proof fn lemma_subscribed_clients_ids(clients: Seq<ClientModel>, id: Seq<u8>)
    requires
        forall|i: int| 0 <= i < clients.len() ==> clients[i].id != id,
    ensures
        client_position(subscribed_clients(clients), id) is None,
    decreases clients.len(),
{
    if clients.len() > 0 {
        lemma_subscribed_clients_ids(clients.drop_last(), id);
        let rest = subscribed_clients(clients.drop_last());
        if clients.last().subscriptions.len() > 0 {
            let all = rest.push(clients.last());
            if exists|i: int| 0 <= i < all.len() && all[i].id == id {
                let i = choose|i: int| 0 <= i < all.len() && all[i].id == id;
                if i < rest.len() {
                    assert(rest[i].id == id);
                    assert(false);
                } else {
                    assert(clients[clients.len() - 1].id == id);
                }
            }
        }
    }
}

/// Restoring the records of all the queued messages, from a state without queued messages,
/// gives the queues that hold messages.
proof fn lemma_apply_offline_records(m: TaskHandlerModel, queues: Seq<(Seq<u8>, Seq<PublishModel>)>)
    requires
        unique_keys(queues),
        m.offline_messages.len() == 0,
    ensures
        apply_records(m, offline_records(queues)) == (TaskHandlerModel {
            clients: m.clients,
            active_connections: m.active_connections,
            offline_messages: nonempty_queues(queues),
            retained_messages: m.retained_messages,
        }),
    decreases queues.len(),
{
    if queues.len() == 0 {
        assert(m.offline_messages =~= nonempty_queues(queues));
    } else {
        let rest = queues.drop_last();
        let (key, messages) = queues.last();
        assert forall|i: int, j: int| 0 <= i < rest.len() && 0 <= j < rest.len() && i != j implies rest[i].0 != rest[j].0 by {
            assert(rest[i] == queues[i] && rest[j] == queues[j]);
        }
        lemma_apply_offline_records(m, rest);
        let records = messages.map_values(|p: PublishModel| BackupRecord::Offline(key, p));
        lemma_apply_records_concat(m, offline_records(rest), records);
        let s1 = apply_records(m, offline_records(rest));
        lemma_apply_offline_messages(s1, key, messages);
        assert forall|i: int| 0 <= i < rest.len() implies rest[i].0 != key by {
            assert(rest[i] == queues[i]);
            assert(queues[queues.len() - 1].0 == key);
        }
        lemma_nonempty_queues_keys(rest, key);
        lemma_enqueue_all_fresh(nonempty_queues(rest), key, messages);
    }
}

/// Restoring the records of all the retained messages, from a state without retained
/// messages, gives the queues that hold messages.
proof fn lemma_apply_retained_records(m: TaskHandlerModel, queues: Seq<(TopicNameModel, Seq<PublishModel>)>)
    requires
        unique_keys(queues),
        m.retained_messages.len() == 0,
    ensures
        apply_records(m, retained_records(queues)) == (TaskHandlerModel {
            clients: m.clients,
            active_connections: m.active_connections,
            offline_messages: m.offline_messages,
            retained_messages: nonempty_queues(queues),
        }),
    decreases queues.len(),
{
    if queues.len() == 0 {
        assert(m.retained_messages =~= nonempty_queues(queues));
    } else {
        let rest = queues.drop_last();
        let (key, messages) = queues.last();
        assert forall|i: int, j: int| 0 <= i < rest.len() && 0 <= j < rest.len() && i != j implies rest[i].0 != rest[j].0 by {
            assert(rest[i] == queues[i] && rest[j] == queues[j]);
        }
        lemma_apply_retained_records(m, rest);
        let records = messages.map_values(|p: PublishModel| BackupRecord::Retained(key, p));
        lemma_apply_records_concat(m, retained_records(rest), records);
        let s1 = apply_records(m, retained_records(rest));
        lemma_apply_retained_messages(s1, key, messages);
        assert forall|i: int| 0 <= i < rest.len() implies rest[i].0 != key by {
            assert(rest[i] == queues[i]);
            assert(queues[queues.len() - 1].0 == key);
        }
        lemma_nonempty_queues_keys(rest, key);
        lemma_enqueue_all_fresh(nonempty_queues(rest), key, messages);
    }
}

/// Restoring the records of all the subscriptions, from a state without clients, gives the
/// clients that subscribed to something.
proof fn lemma_apply_subscription_records(m: TaskHandlerModel, clients: Seq<ClientModel>)
    requires
        unique_clients(clients),
        m.clients.len() == 0,
    ensures
        apply_records(m, subscription_records(clients)) == (TaskHandlerModel {
            clients: subscribed_clients(clients),
            active_connections: m.active_connections,
            offline_messages: m.offline_messages,
            retained_messages: m.retained_messages,
        }),
    decreases clients.len(),
{
    if clients.len() == 0 {
        assert(m.clients =~= subscribed_clients(clients));
    } else {
        let rest = clients.drop_last();
        let last = clients.last();
        assert forall|i: int, j: int| 0 <= i < rest.len() && 0 <= j < rest.len() && i != j implies rest[i].id != rest[j].id by {
            assert(rest[i] == clients[i] && rest[j] == clients[j]);
        }
        lemma_apply_subscription_records(m, rest);
        let records = last.subscriptions.map_values(|f: TopicFilterModel| BackupRecord::Subscription(last.id, f));
        lemma_apply_records_concat(m, subscription_records(rest), records);
        let s1 = apply_records(m, subscription_records(rest));
        lemma_apply_subscriptions(s1, last.id, last.subscriptions);
        assert forall|i: int| 0 <= i < rest.len() implies rest[i].id != last.id by {
            assert(rest[i] == clients[i]);
            assert(clients[clients.len() - 1].id == last.id);
        }
        lemma_subscribed_clients_ids(rest, last.id);
        lemma_restore_all_fresh(subscribed_clients(rest), last.id, last.subscriptions);
        assert(ClientModel { id: last.id, subscriptions: last.subscriptions } == last);
    }
}

/// Restoring the records of a backup of a well-formed state, from the state of a server that
/// knows nothing, gives the state that the backup keeps.
pub proof fn lemma_apply_backup_records(m: TaskHandlerModel)
    requires
        m.wf(),
    ensures
        apply_records(empty_state(), backup_records(m)) == restored_state(m),
{
    let offline = offline_records(m.offline_messages);
    let retained = retained_records(m.retained_messages);
    let subscriptions = subscription_records(m.clients);
    assert(backup_records(m) == offline + retained + subscriptions);
    lemma_apply_records_concat(empty_state(), offline + retained, subscriptions);
    lemma_apply_records_concat(empty_state(), offline, retained);
    lemma_apply_offline_records(empty_state(), m.offline_messages);
    let s1 = apply_records(empty_state(), offline);
    lemma_apply_retained_records(s1, m.retained_messages);
    let s2 = apply_records(s1, retained);
    lemma_apply_subscription_records(s2, m.clients);
    assert(empty_state().active_connections =~= Seq::<Seq<u8>>::empty());
}

/// The tag of a record.
spec fn record_tag(r: BackupRecord) -> u8 {
    match r {
        BackupRecord::Offline(..) => OFFLINE_MESSAGES_TAG,
        BackupRecord::Retained(..) => RETAINED_MESSAGES_TAG,
        BackupRecord::Subscription(..) => CLIENTS_TAG,
    }
}

/// The key of a record, as its line holds it.
spec fn record_key(r: BackupRecord) -> Seq<u8> {
    match r {
        BackupRecord::Offline(id, _) => id,
        BackupRecord::Retained(topic, _) => encode_topic_name(topic),
        BackupRecord::Subscription(id, _) => id,
    }
}

/// The encoded hexadecimal text of bytes.
spec fn hex_bytes(b: Seq<u8>) -> Seq<u8> {
    vstd::utf8::encode_utf8(hex_text(b))
}

/// The bytes of the line of a record, without its line feed.
spec fn record_bytes(r: BackupRecord, value: Seq<u8>) -> Seq<u8> {
    seq![record_tag(r), FIELD_SEPARATOR] + hex_bytes(record_key(r)) + seq![FIELD_SEPARATOR] + hex_bytes(value)
}

/// A character below 0x80 is encoded as its byte.
proof fn lemma_encode_ascii_char(c: char)
    requires
        (c as u32) < 0x80,
    ensures
        vstd::utf8::encode_utf8(seq![c]) == seq![c as u8],
{
    let s = seq![c];
    assert(vstd::utf8::is_ascii_chars(s)) by {
        assert forall|i: int| 0 <= i < s.len() implies '\0' <= #[trigger] s[i] <= '\u{7f}' by {
            assert(s[i] == c);
        }
    }
    vstd::utf8::is_ascii_chars_encode_utf8(s);
    assert(vstd::utf8::encode_utf8(s) =~= seq![c as u8]);
}

/// The encoded line of a record is its bytes, then a line feed.
proof fn lemma_record_line_bytes(r: BackupRecord, value: Seq<u8>)
    ensures
        vstd::utf8::encode_utf8(record_line(r, value)) == record_bytes(r, value).push(LINE_FEED),
{
    reveal_strlit("O");
    reveal_strlit("R");
    reveal_strlit("C");
    reveal_strlit(";");
    reveal_strlit("\n");
    let tag = match r {
        BackupRecord::Offline(..) => "O"@,
        BackupRecord::Retained(..) => "R"@,
        BackupRecord::Subscription(..) => "C"@,
    };
    let k = hex_text(record_key(r));
    let v = hex_text(value);
    assert(record_line(r, value) == tag + ";"@ + k + ";"@ + v + "\n"@);
    crate::text::lemma_encode_utf8_concat(tag + ";"@ + k + ";"@ + v, "\n"@);
    crate::text::lemma_encode_utf8_concat(tag + ";"@ + k + ";"@, v);
    crate::text::lemma_encode_utf8_concat(tag + ";"@ + k, ";"@);
    crate::text::lemma_encode_utf8_concat(tag + ";"@, k);
    crate::text::lemma_encode_utf8_concat(tag, ";"@);
    lemma_encode_ascii_char(tag[0]);
    assert(tag =~= seq![tag[0]]);
    lemma_encode_ascii_char(';');
    lemma_encode_ascii_char('\n');
    assert(";"@ =~= seq![';']);
    assert("\n"@ =~= seq!['\n']);
    assert((';' as u8) == FIELD_SEPARATOR);
    assert(('\n' as u8) == LINE_FEED);
    assert(vstd::utf8::encode_utf8(tag) == seq![record_tag(r)]);
    assert(vstd::utf8::encode_utf8(record_line(r, value)) =~= record_bytes(r, value).push(LINE_FEED));
}

/// The fields of a record's line hold no separator, and no byte of the line is a line feed or
/// a carriage return.
proof fn lemma_record_bytes_split(r: BackupRecord, value: Seq<u8>)
    ensures
        split_bytes(record_bytes(r, value), FIELD_SEPARATOR) == seq![
            seq![record_tag(r)],
            hex_bytes(record_key(r)),
            hex_bytes(value),
        ],
        !record_bytes(r, value).contains(LINE_FEED),
        record_bytes(r, value).last() != CARRIAGE_RETURN,
{
    let sep = FIELD_SEPARATOR;
    let a = seq![record_tag(r)];
    let b = hex_bytes(record_key(r));
    let c = hex_bytes(value);
    lemma_hex_text_digits(record_key(r));
    lemma_hex_text_digits(value);
    let pieces = seq![a, b, c];
    assert forall|i: int| 0 <= i < pieces.len() implies !(#[trigger] pieces[i]).contains(sep) by {
        if pieces[i].contains(sep) {
            let k = choose|k: int| 0 <= k < pieces[i].len() && pieces[i][k] == sep;
            if i == 0 {
                assert(a[k] == record_tag(r));
            } else if i == 1 {
                assert(hex_value(b[k]) is Some);
            } else {
                assert(hex_value(c[k]) is Some);
            }
        }
    }
    assert(pieces.drop_last().drop_last() =~= seq![a]);
    assert(pieces.drop_last() =~= seq![a, b]);
    assert(join_bytes(pieces.drop_last(), sep) == join_bytes(seq![a], sep).push(sep) + b);
    assert(join_bytes(pieces, sep) =~= record_bytes(r, value));
    crate::bytes::lemma_split_join(pieces, sep);
    let l = record_bytes(r, value);
    assert forall|j: int| 0 <= j < l.len() implies #[trigger] l[j] != LINE_FEED && l[j] != CARRIAGE_RETURN by {
        if 2 <= j < 2 + b.len() {
            assert(l[j] == b[j - 2]);
            assert(hex_value(b[j - 2]) is Some);
        } else if j > 2 + b.len() {
            assert(l[j] == c[j - 3 - b.len()]);
            assert(hex_value(c[j - 3 - b.len()]) is Some);
        }
    }
    assert(l[l.len() - 1] != CARRIAGE_RETURN);
}

/// What a record holds can be read back: a message that is a well-formed PUBLISH packet that
/// fits, retained on a well-formed topic, or a well-formed filter.
pub open spec fn record_readable(r: BackupRecord) -> bool {
    match r {
        BackupRecord::Offline(_, p) => publish_wf(p) && encode_publish_content(p).len() <= MAX_LENGTH,
        BackupRecord::Retained(topic, p) => topic_name_wf(topic) && publish_wf(p) && encode_publish_content(p).len()
            <= MAX_LENGTH,
        BackupRecord::Subscription(_, f) => topic_filter_wf(f),
    }
}

/// The fields of a record's line: its tag, then its key and its value, read back from
/// hexadecimal.
proof fn lemma_record_fields(r: BackupRecord, value: Seq<u8>)
    ensures
        ({
            let parts = split_bytes(record_bytes(r, value), FIELD_SEPARATOR);
            &&& parts.len() == 3
            &&& parts[0] == seq![record_tag(r)]
            &&& hex_pairs(parts[1], 0) == Some(Some(record_key(r)))
            &&& hex_pairs(parts[2], 0) == Some(Some(value))
        }),
{
    lemma_record_bytes_split(r, value);
    lemma_hex_roundtrip(record_key(r));
    lemma_hex_roundtrip(value);
}

/// Restoring the line of a queued message restores it.
proof fn lemma_restore_offline_line(s: TaskHandlerModel, id: Seq<u8>, p: PublishModel, value: Seq<u8>, key: Seq<u8>)
    requires
        record_readable(BackupRecord::Offline(id, p)),
        record_value(BackupRecord::Offline(id, p), value, key),
    ensures
        restore_line(s, record_bytes(BackupRecord::Offline(id, p), value), key) == Some(
            apply_record(s, BackupRecord::Offline(id, p)),
        ),
{
    let empty = Seq::<u8>::empty();
    lemma_record_fields(BackupRecord::Offline(id, p), value);
    assert(value + empty =~= value);
    crate::model::packet::lemma_packet_roundtrip(PacketModel::Publish(p), value, key, empty);
    assert(crate::server::backup::record_message(value, key) == Some(Some(p)));
}

/// Restoring the line of a retained message restores it.
proof fn lemma_restore_retained_line(
    s: TaskHandlerModel,
    topic: TopicNameModel,
    p: PublishModel,
    value: Seq<u8>,
    key: Seq<u8>,
)
    requires
        record_readable(BackupRecord::Retained(topic, p)),
        record_value(BackupRecord::Retained(topic, p), value, key),
    ensures
        restore_line(s, record_bytes(BackupRecord::Retained(topic, p), value), key) == Some(
            apply_record(s, BackupRecord::Retained(topic, p)),
        ),
{
    let empty = Seq::<u8>::empty();
    let r = BackupRecord::Retained(topic, p);
    lemma_record_fields(r, value);
    let parts = split_bytes(record_bytes(r, value), FIELD_SEPARATOR);
    assert(parts[0][0] != seq![OFFLINE_MESSAGES_TAG][0]);
    assert(value + empty =~= value);
    crate::model::packet::lemma_packet_roundtrip(PacketModel::Publish(p), value, key, empty);
    assert(crate::server::backup::record_message(value, key) == Some(Some(p)));
    crate::model::components::topic_name::lemma_topic_name_roundtrip(topic, empty, empty);
    assert(encode_topic_name(topic) + empty =~= encode_topic_name(topic));
}

/// Restoring the line of a subscription restores it.
proof fn lemma_restore_subscription_line(
    s: TaskHandlerModel,
    id: Seq<u8>,
    f: TopicFilterModel,
    value: Seq<u8>,
    key: Seq<u8>,
)
    requires
        record_readable(BackupRecord::Subscription(id, f)),
        record_value(BackupRecord::Subscription(id, f), value, key),
    ensures
        restore_line(s, record_bytes(BackupRecord::Subscription(id, f), value), key) == Some(
            apply_record(s, BackupRecord::Subscription(id, f)),
        ),
{
    let empty = Seq::<u8>::empty();
    let r = BackupRecord::Subscription(id, f);
    lemma_record_fields(r, value);
    let parts = split_bytes(record_bytes(r, value), FIELD_SEPARATOR);
    assert(parts[0][0] != seq![OFFLINE_MESSAGES_TAG][0]);
    assert(parts[0][0] != seq![RETAINED_MESSAGES_TAG][0]);
    crate::model::components::topic_filter::lemma_topic_filter_roundtrip(f, empty);
    assert(encode_topic_filter(f) + empty =~= encode_topic_filter(f));
}

/// Restoring the line of a record that can be read back restores the record.
proof fn lemma_restore_record_line(s: TaskHandlerModel, r: BackupRecord, value: Seq<u8>, key: Seq<u8>)
    requires
        record_readable(r),
        record_value(r, value, key),
    ensures
        restore_line(s, record_bytes(r, value), key) == Some(apply_record(s, r)),
{
    match r {
        BackupRecord::Offline(id, p) => lemma_restore_offline_line(s, id, p, value, key),
        BackupRecord::Retained(topic, p) => lemma_restore_retained_line(s, topic, p, value, key),
        BackupRecord::Subscription(id, f) => lemma_restore_subscription_line(s, id, f, value, key),
    }
}

/// Lines, each followed by a line feed.
spec fn ended_lines(lines: Seq<Seq<u8>>) -> Seq<u8>
    decreases lines.len(),
{
    if lines.len() == 0 {
        Seq::<u8>::empty()
    } else {
        ended_lines(lines.drop_last()) + lines.last().push(LINE_FEED)
    }
}

/// Splitting at line feeds lines that hold none, each followed by one, gives the lines, then
/// an empty piece.
proof fn lemma_split_ended_lines(lines: Seq<Seq<u8>>)
    requires
        forall|i: int| 0 <= i < lines.len() ==> !(#[trigger] lines[i]).contains(LINE_FEED),
    ensures
        split_bytes(ended_lines(lines), LINE_FEED) == lines.push(Seq::<u8>::empty()),
    decreases lines.len(),
{
    let empty = Seq::<u8>::empty();
    if lines.len() == 0 {
        assert(split_bytes(ended_lines(lines), LINE_FEED) =~= lines.push(empty));
    } else {
        let init = lines.drop_last();
        let last = lines.last();
        assert forall|i: int| 0 <= i < init.len() implies !(#[trigger] init[i]).contains(LINE_FEED) by {
            assert(init[i] == lines[i]);
        }
        lemma_split_ended_lines(init);
        assert(!last.contains(LINE_FEED)) by {
            assert(lines[lines.len() - 1] == last);
        }
        let x = ended_lines(init);
        crate::bytes::lemma_split_append_no_sep(x, last, LINE_FEED);
        let whole = ended_lines(lines);
        assert(whole == x + last.push(LINE_FEED));
        assert(whole.drop_last() =~= x + last);
        assert(whole.last() == LINE_FEED);
        assert(split_bytes(whole, LINE_FEED) == split_bytes(x + last, LINE_FEED).push(empty));
        assert(init.push(empty).update(init.len() as int, empty + last) =~= lines);
    }
}

/// The lines of lines that hold no line feed and do not end with a carriage return, each
/// followed by a line feed, are those lines.
proof fn lemma_text_lines_ended(lines: Seq<Seq<u8>>)
    requires
        forall|i: int| 0 <= i < lines.len() ==> !(#[trigger] lines[i]).contains(LINE_FEED),
        forall|i: int| 0 <= i < lines.len() ==> (#[trigger] lines[i]).len() > 0 && lines[i].last() != CARRIAGE_RETURN,
    ensures
        text_lines(ended_lines(lines)) == lines,
{
    lemma_split_ended_lines(lines);
    let pieces = lines.push(Seq::<u8>::empty());
    assert(pieces.drop_last() =~= lines);
    let ended = lines.map_values(|line: Seq<u8>| crate::server::backup::strip_carriage_return(line));
    assert forall|i: int| 0 <= i < lines.len() implies ended[i] == lines[i] by {
        assert(lines[i].len() > 0 && lines[i].last() != CARRIAGE_RETURN);
    }
    assert(ended =~= lines);
}

/// The bytes of the lines of records whose values have the given bytes.
spec fn record_lines(records: Seq<BackupRecord>, values: Seq<Seq<u8>>) -> Seq<Seq<u8>> {
    Seq::new(records.len(), |i: int| record_bytes(records[i], values[i]))
}

/// The encoded text of records is the bytes of their lines, each followed by a line feed.
proof fn lemma_backup_text_bytes(records: Seq<BackupRecord>, values: Seq<Seq<u8>>)
    requires
        values.len() == records.len(),
    ensures
        vstd::utf8::encode_utf8(backup_text(records, values)) == ended_lines(record_lines(records, values)),
    decreases records.len(),
{
    let lines = record_lines(records, values);
    if records.len() == 0 {
        assert(vstd::utf8::encode_utf8(backup_text(records, values)) =~= Seq::<u8>::empty());
    } else {
        let init_r = records.drop_last();
        let init_v = values.drop_last();
        lemma_backup_text_bytes(init_r, init_v);
        assert(lines.drop_last() =~= record_lines(init_r, init_v));
        crate::text::lemma_encode_utf8_concat(backup_text(init_r, init_v), record_line(records.last(), values.last()));
        lemma_record_line_bytes(records.last(), values.last());
        assert(lines.last() == record_bytes(records.last(), values.last()));
    }
}

/// Restoring the lines of records that can be read back, whose values have the bytes of their
/// messages or filters, restores the records one after the other.
proof fn lemma_restore_record_lines(records: Seq<BackupRecord>, values: Seq<Seq<u8>>, key: Seq<u8>)
    requires
        values.len() == records.len(),
        forall|j: int| 0 <= j < records.len() ==> record_readable(#[trigger] records[j]),
        forall|j: int| 0 <= j < records.len() ==> record_value(#[trigger] records[j], values[j], key),
    ensures
        restore_lines(record_lines(records, values), key) == Some(apply_records(empty_state(), records)),
    decreases records.len(),
{
    let lines = record_lines(records, values);
    if records.len() > 0 {
        let init_r = records.drop_last();
        let init_v = values.drop_last();
        assert forall|j: int| 0 <= j < init_r.len() implies record_readable(#[trigger] init_r[j]) && record_value(
            init_r[j],
            init_v[j],
            key,
        ) by {
            assert(init_r[j] == records[j] && init_v[j] == values[j]);
        }
        lemma_restore_record_lines(init_r, init_v, key);
        assert(lines.drop_last() =~= record_lines(init_r, init_v));
        let last = records.len() - 1;
        assert(records[last] == records.last());
        lemma_restore_record_line(apply_records(empty_state(), init_r), records[last], values[last], key);
    }
}

/// Everything the state holds reads back as it was written: its messages are well-formed
/// PUBLISH packets that fit, retained on well-formed topics, and its subscriptions are
/// well-formed filters.
pub open spec fn held_readable(m: TaskHandlerModel) -> bool {
    &&& forall|i: int, j: int|
        0 <= i < m.offline_messages.len() && 0 <= j < m.offline_messages[i].1.len() ==> publish_wf(
            #[trigger] m.offline_messages[i].1[j],
        ) && encode_publish_content(m.offline_messages[i].1[j]).len() <= MAX_LENGTH
    &&& forall|i: int| 0 <= i < m.retained_messages.len() ==> topic_name_wf(#[trigger] m.retained_messages[i].0)
    &&& forall|i: int, j: int|
        0 <= i < m.retained_messages.len() && 0 <= j < m.retained_messages[i].1.len() ==> publish_wf(
            #[trigger] m.retained_messages[i].1[j],
        ) && encode_publish_content(m.retained_messages[i].1[j]).len() <= MAX_LENGTH
    &&& forall|i: int, j: int|
        0 <= i < m.clients.len() && 0 <= j < m.clients[i].subscriptions.len() ==> topic_filter_wf(
            #[trigger] m.clients[i].subscriptions[j],
        )
}

/// The records of queued messages that read back can be read back.
proof fn lemma_offline_records_readable(queues: Seq<(Seq<u8>, Seq<PublishModel>)>)
    requires
        forall|i: int, j: int|
            0 <= i < queues.len() && 0 <= j < queues[i].1.len() ==> publish_wf(#[trigger] queues[i].1[j])
                && encode_publish_content(queues[i].1[j]).len() <= MAX_LENGTH,
    ensures
        forall|k: int| 0 <= k < offline_records(queues).len() ==> record_readable(#[trigger] offline_records(queues)[k]),
    decreases queues.len(),
{
    if queues.len() > 0 {
        let init = queues.drop_last();
        assert forall|i: int, j: int| 0 <= i < init.len() && 0 <= j < init[i].1.len() implies publish_wf(
            #[trigger] init[i].1[j],
        ) && encode_publish_content(init[i].1[j]).len() <= MAX_LENGTH by {
            assert(init[i] == queues[i]);
        }
        lemma_offline_records_readable(init);
        let first = offline_records(init);
        let (id, messages) = queues.last();
        let added = messages.map_values(|p: PublishModel| BackupRecord::Offline(id, p));
        assert forall|k: int| 0 <= k < (first + added).len() implies record_readable(#[trigger] (first + added)[k]) by {
            if k >= first.len() {
                let j = k - first.len();
                assert(queues[queues.len() - 1].1[j] == messages[j]);
                assert(added[j] == BackupRecord::Offline(id, messages[j]));
            }
        }
    }
}

/// The records of retained messages that read back can be read back.
proof fn lemma_retained_records_readable(queues: Seq<(TopicNameModel, Seq<PublishModel>)>)
    requires
        forall|i: int| 0 <= i < queues.len() ==> topic_name_wf(#[trigger] queues[i].0),
        forall|i: int, j: int|
            0 <= i < queues.len() && 0 <= j < queues[i].1.len() ==> publish_wf(#[trigger] queues[i].1[j])
                && encode_publish_content(queues[i].1[j]).len() <= MAX_LENGTH,
    ensures
        forall|k: int|
            0 <= k < retained_records(queues).len() ==> record_readable(#[trigger] retained_records(queues)[k]),
    decreases queues.len(),
{
    if queues.len() > 0 {
        let init = queues.drop_last();
        assert forall|i: int| 0 <= i < init.len() implies topic_name_wf(#[trigger] init[i].0) by {
            assert(init[i] == queues[i]);
        }
        assert forall|i: int, j: int| 0 <= i < init.len() && 0 <= j < init[i].1.len() implies publish_wf(
            #[trigger] init[i].1[j],
        ) && encode_publish_content(init[i].1[j]).len() <= MAX_LENGTH by {
            assert(init[i] == queues[i]);
        }
        lemma_retained_records_readable(init);
        let first = retained_records(init);
        let (topic, messages) = queues.last();
        let added = messages.map_values(|p: PublishModel| BackupRecord::Retained(topic, p));
        assert(topic_name_wf(queues[queues.len() - 1].0));
        assert forall|k: int| 0 <= k < (first + added).len() implies record_readable(#[trigger] (first + added)[k]) by {
            if k >= first.len() {
                let j = k - first.len();
                assert(queues[queues.len() - 1].1[j] == messages[j]);
                assert(added[j] == BackupRecord::Retained(topic, messages[j]));
            }
        }
    }
}

/// The records of subscriptions to well-formed filters can be read back.
proof fn lemma_subscription_records_readable(clients: Seq<ClientModel>)
    requires
        forall|i: int, j: int|
            0 <= i < clients.len() && 0 <= j < clients[i].subscriptions.len() ==> topic_filter_wf(
                #[trigger] clients[i].subscriptions[j],
            ),
    ensures
        forall|k: int|
            0 <= k < subscription_records(clients).len() ==> record_readable(#[trigger] subscription_records(clients)[k]),
    decreases clients.len(),
{
    if clients.len() > 0 {
        let init = clients.drop_last();
        assert forall|i: int, j: int| 0 <= i < init.len() && 0 <= j < init[i].subscriptions.len() implies topic_filter_wf(
            #[trigger] init[i].subscriptions[j],
        ) by {
            assert(init[i] == clients[i]);
        }
        lemma_subscription_records_readable(init);
        let first = subscription_records(init);
        let last = clients.last();
        let added = last.subscriptions.map_values(|f: TopicFilterModel| BackupRecord::Subscription(last.id, f));
        assert forall|k: int| 0 <= k < (first + added).len() implies record_readable(#[trigger] (first + added)[k]) by {
            if k >= first.len() {
                let j = k - first.len();
                assert(clients[clients.len() - 1].subscriptions[j] == last.subscriptions[j]);
                assert(added[j] == BackupRecord::Subscription(last.id, last.subscriptions[j]));
            }
        }
    }
}

/// Restoring a backup of a well-formed state whose contents read back as they were written
/// gives the state that the backup keeps: the clients that subscribed to something, with their
/// subscriptions in order, none of them connected, and the queued and retained messages, in
/// order, of the queues that hold some.
pub proof fn lemma_backup_roundtrip(m: TaskHandlerModel, text: Seq<char>, key: Seq<u8>)
    requires
        m.wf(),
        held_readable(m),
        is_backup_of(text, backup_records(m), key),
    ensures
        restore_backup(text, key) == Some(restored_state(m)),
{
    let records = backup_records(m);
    let values = choose|values: Seq<Seq<u8>>|
        #![trigger backup_text(records, values)]
        values.len() == records.len() && (forall|j: int| 0 <= j < records.len() ==> record_value(#[trigger] records[j], values[j], key))
            && text == backup_text(records, values);
    lemma_offline_records_readable(m.offline_messages);
    lemma_retained_records_readable(m.retained_messages);
    lemma_subscription_records_readable(m.clients);
    let a = offline_records(m.offline_messages);
    let b = retained_records(m.retained_messages);
    let c = subscription_records(m.clients);
    assert forall|j: int| 0 <= j < records.len() implies record_readable(#[trigger] records[j]) by {
        if j < a.len() {
            assert(records[j] == a[j]);
        } else if j < a.len() + b.len() {
            assert(records[j] == b[j - a.len()]);
        } else {
            assert(records[j] == c[j - a.len() - b.len()]);
        }
    }
    lemma_backup_text_bytes(records, values);
    let lines = record_lines(records, values);
    assert forall|i: int| 0 <= i < lines.len() implies !(#[trigger] lines[i]).contains(LINE_FEED) && lines[i].len() > 0
        && lines[i].last() != CARRIAGE_RETURN by {
        lemma_record_bytes_split(records[i], values[i]);
    }
    lemma_text_lines_ended(lines);
    lemma_restore_record_lines(records, values, key);
    lemma_apply_backup_records(m);
}

} // verus!
