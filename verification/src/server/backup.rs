use vstd::prelude::*;

use crate::bytes::{byte_seqs, split_bytes, split_on};
use crate::model::components::topic_filter::{decode_topic_filter, encode_topic_filter, TopicFilterModel};
use crate::model::components::topic_name::{decode_topic_name, encode_topic_name, TopicNameModel};
use crate::model::packet::{decode_packet, packet_bytes, PacketModel};
use crate::model::packets::publish::PublishModel;
use crate::server::client::ClientModel;
use crate::server::task_handler::{client_position, enqueue, TaskHandlerModel};

verus! {

/// The character of a hexadecimal digit, upper case.
pub open spec fn hex_digit_char(d: nat) -> char {
    if d < 10 {
        ((d + 0x30) as u32) as char
    } else {
        ((d - 10 + 0x41) as u32) as char
    }
}

/// The text of bytes in hexadecimal: two upper-case digits per byte, the high one first.
pub open spec fn hex_text(bytes: Seq<u8>) -> Seq<char>
    decreases bytes.len(),
{
    if bytes.len() == 0 {
        Seq::<char>::empty()
    } else {
        hex_text(bytes.drop_last()) + seq![hex_digit_char((bytes.last() / 16) as nat), hex_digit_char((bytes.last() % 16) as nat)]
    }
}

/// The value of a hexadecimal digit, in either case.
pub open spec fn hex_value(byte: u8) -> Option<u8> {
    if 0x30 <= byte <= 0x39 {
        Some((byte - 0x30) as u8)
    } else if 0x41 <= byte <= 0x46 {
        Some((byte - 0x41 + 10) as u8)
    } else if 0x61 <= byte <= 0x66 {
        Some((byte - 0x61 + 10) as u8)
    } else {
        None
    }
}

/// The byte that the two-byte text `first`, `second` stands for in base 16, as
/// `u8::from_str_radix` reads it: two digits, or a `+` sign and one digit.
pub open spec fn hex_pair_value(first: u8, second: u8) -> Option<u8> {
    if first == 0x2B {
        hex_value(second)
    } else {
        match (hex_value(first), hex_value(second)) {
            (Some(high), Some(low)) => Some((high * 16 + low) as u8),
            _ => None,
        }
    }
}

/// The message of the error that a pair of characters that is not a number gives.
pub open spec fn invalid_digit_message() -> Seq<char> {
    "invalid digit found in string"@
}

/// Reading the bytes of a hexadecimal text, encoded in UTF-8 as `text`, from position `k` on:
/// each pair of bytes is a byte of the result. `Some(None)` when a pair is not a number; `None`
/// when a pair is cut short or ends inside a character (the next byte continues it), which
/// the reading cannot slice.
pub open spec fn hex_pairs(text: Seq<u8>, k: nat) -> Option<Option<Seq<u8>>>
    decreases text.len() - k,
{
    if k >= text.len() {
        Some(Some(Seq::<u8>::empty()))
    } else if k + 2 > text.len() || (k + 2 < text.len() && vstd::utf8::is_continuation_byte(text[(k + 2) as int])) {
        None
    } else {
        match hex_pair_value(text[k as int], text[(k + 1) as int]) {
            None => Some(None),
            Some(v) => match hex_pairs(text, k + 2) {
                None => None,
                Some(None) => Some(None),
                Some(Some(rest)) => Some(Some(seq![v] + rest)),
            },
        }
    }
}

/// The text of the digit `d`.
fn hex_digit_str(d: u8) -> (digit: &'static str)
    requires
        d < 16,
    ensures
        digit@ == seq![hex_digit_char(d as nat)],
{
    proof {
        reveal_strlit("0");
        reveal_strlit("1");
        reveal_strlit("2");
        reveal_strlit("3");
        reveal_strlit("4");
        reveal_strlit("5");
        reveal_strlit("6");
        reveal_strlit("7");
        reveal_strlit("8");
        reveal_strlit("9");
        reveal_strlit("A");
        reveal_strlit("B");
        reveal_strlit("C");
        reveal_strlit("D");
        reveal_strlit("E");
        reveal_strlit("F");
    }
    match d {
        0 => "0",
        1 => "1",
        2 => "2",
        3 => "3",
        4 => "4",
        5 => "5",
        6 => "6",
        7 => "7",
        8 => "8",
        9 => "9",
        10 => "A",
        11 => "B",
        12 => "C",
        13 => "D",
        14 => "E",
        _ => "F",
    }
}

/// Convert a slice of bytes to a hexadecimal string
pub fn bytes_to_hex(bytes: &[u8]) -> (hex: String)
    ensures
        hex@ == hex_text(bytes@),
{
    let mut hex = String::new();
    let mut i: usize = 0;
    while i < bytes.len()
        invariant
            i <= bytes.len(),
            hex@ == hex_text(bytes@.take(i as int)),
        decreases bytes.len() - i,
    {
        let byte = bytes[i];
        hex.append(hex_digit_str(byte / 16));
        hex.append(hex_digit_str(byte % 16));
        assert(bytes@.take(i + 1).drop_last() =~= bytes@.take(i as int));
        i = i + 1;
        assert(hex@ =~= hex_text(bytes@.take(i as int)));
    }
    assert(bytes@.take(i as int) =~= bytes@);
    hex
}

/// The value of the hexadecimal digit `byte`.
fn hex_digit_value(byte: u8) -> (value: Option<u8>)
    ensures
        value == hex_value(byte),
{
    if 0x30 <= byte && byte <= 0x39 {
        Some(byte - 0x30)
    } else if 0x41 <= byte && byte <= 0x46 {
        Some(byte - 0x41 + 10)
    } else if 0x61 <= byte && byte <= 0x66 {
        Some(byte - 0x61 + 10)
    } else {
        None
    }
}

/// Reads the bytes of a hexadecimal text given by its UTF-8 bytes, or gives `None` when a pair
/// of digits is cut short or ends inside a character.
pub fn try_hex_bytes_to_bytes(text: &[u8]) -> (result: Option<Result<Vec<u8>, String>>)
    ensures
        match hex_pairs(text@, 0) {
            Some(Some(bytes)) => result matches Some(Ok(b)) && b@ == bytes,
            Some(None) => result matches Some(Err(e)) && e@ == invalid_digit_message(),
            None => result is None,
        },
{
    proof {
        reveal_strlit("invalid digit found in string");
    }
    let mut bytes: Vec<u8> = Vec::new();
    let mut k: usize = 0;
    while k < text.len()
        invariant
            k <= text.len() + 1,
            k % 2 == 0,
            hex_pairs(text@, 0) == match hex_pairs(text@, k as nat) {
                None => None,
                Some(None) => Some(None),
                Some(Some(rest)) => Some(Some(bytes@ + rest)),
            },
        decreases text.len() - k,
    {
        if text.len() - k < 2 || (text.len() - k > 2 && 0x80 <= text[k + 2] && text[k + 2] <= 0xBF) {
            return None;
        }
        let high = text[k];
        let low = text[k + 1];
        let value = if high == 0x2B {
            hex_digit_value(low)
        } else {
            match (hex_digit_value(high), hex_digit_value(low)) {
                (Some(h), Some(l)) => Some(h * 16 + l),
                _ => None,
            }
        };
        match value {
            None => {
                return Some(Err(String::from_str("invalid digit found in string")));
            },
            Some(v) => {
                let ghost before = bytes@;
                bytes.push(v);
                proof {
                    match hex_pairs(text@, (k + 2) as nat) {
                        Some(Some(rest)) => {
                            assert(before + (seq![v] + rest) =~= bytes@ + rest);
                        },
                        _ => {},
                    }
                }
            },
        }
        k = k + 2;
    }
    assert(bytes@ + Seq::<u8>::empty() =~= bytes@);
    Some(Ok(bytes))
}

/// Reads the bytes of a hexadecimal text given by its UTF-8 bytes.
pub fn hex_bytes_to_bytes(text: &[u8]) -> (result: Result<Vec<u8>, String>)
    requires
        hex_pairs(text@, 0) is Some,
    ensures
        match hex_pairs(text@, 0) {
            Some(Some(bytes)) => result matches Ok(b) && b@ == bytes,
            Some(None) => result matches Err(e) && e@ == invalid_digit_message(),
            None => false,
        },
{
    match try_hex_bytes_to_bytes(text) {
        Some(result) => result,
        None => {
            assert(false);
            Err(String::new())
        },
    }
}

/// Convert a hexadecimal string to a vector of bytes
pub fn hex_to_bytes(hex: &str) -> (result: Result<Vec<u8>, String>)
    requires
        hex_pairs(vstd::utf8::encode_utf8(hex@), 0) is Some,
    ensures
        match hex_pairs(vstd::utf8::encode_utf8(hex@), 0) {
            Some(Some(bytes)) => result matches Ok(b) && b@ == bytes,
            Some(None) => result matches Err(e) && e@ == invalid_digit_message(),
            None => false,
        },
{
    hex_bytes_to_bytes(hex.as_bytes())
}

/// The line feed that ends the lines of a backup.
pub const LINE_FEED: u8 = 0x0A;

/// The carriage return that may come before a line feed.
pub const CARRIAGE_RETURN: u8 = 0x0D;

/// A line without the carriage return that ended it, if one did.
pub open spec fn strip_carriage_return(line: Seq<u8>) -> Seq<u8> {
    if line.len() > 0 && line.last() == CARRIAGE_RETURN {
        line.drop_last()
    } else {
        line
    }
}

/// The lines of a text, as `str::lines` yields them: the pieces between line feeds, each
/// ended by a line feed losing a carriage return before it; a last piece that is empty is
/// no line.
pub open spec fn text_lines(text: Seq<u8>) -> Seq<Seq<u8>> {
    let pieces = split_bytes(text, LINE_FEED);
    let ended = pieces.drop_last().map_values(|line: Seq<u8>| strip_carriage_return(line));
    if pieces.last().len() == 0 {
        ended
    } else {
        ended.push(pieces.last())
    }
}

/// Splits a text into its lines, as `str::lines` does.
pub fn lines_of(text: &[u8]) -> (lines: Vec<Vec<u8>>)
    ensures
        byte_seqs(lines@) == text_lines(text@),
{
    let pieces = split_on(text, LINE_FEED);
    let ghost all = byte_seqs(pieces@);
    proof {
        crate::bytes::lemma_split_bytes_shape(text@, LINE_FEED);
    }
    let mut lines: Vec<Vec<u8>> = Vec::new();
    let last = pieces.len() - 1;
    let mut i: usize = 0;
    while i < last
        invariant
            i <= last,
            last == pieces.len() - 1,
            all == byte_seqs(pieces@),
            all == split_bytes(text@, LINE_FEED),
            byte_seqs(lines@) == all.take(i as int).map_values(|line: Seq<u8>| strip_carriage_return(line)),
        decreases last - i,
    {
        let piece = &pieces[i];
        let n = piece.len();
        let line = if n > 0 && piece[n - 1] == CARRIAGE_RETURN {
            let mut line = vstd::slice::slice_to_vec(piece.as_slice());
            line.pop();
            line
        } else {
            vstd::slice::slice_to_vec(piece.as_slice())
        };
        assert(line@ == strip_carriage_return(all[i as int]));
        let ghost before = byte_seqs(lines@);
        lines.push(line);
        assert(byte_seqs(lines@) =~= before.push(line@));
        assert(all.take(i + 1).map_values(|line: Seq<u8>| strip_carriage_return(line)) =~= all.take(i as int).map_values(
            |line: Seq<u8>| strip_carriage_return(line),
        ).push(strip_carriage_return(all[i as int])));
        i = i + 1;
    }
    assert(all.take(last as int) =~= all.drop_last());
    if pieces[last].len() > 0 {
        let ghost before = byte_seqs(lines@);
        lines.push(vstd::slice::slice_to_vec(pieces[last].as_slice()));
        assert(byte_seqs(lines@) =~= before.push(all.last()));
    }
    lines
}

/// The tag of the records of messages queued for a client that was not connected: "O".
pub const OFFLINE_MESSAGES_TAG: u8 = 0x4F;

/// The tag of the records of retained messages: "R".
pub const RETAINED_MESSAGES_TAG: u8 = 0x52;

/// The tag of the records of subscriptions: "C".
pub const CLIENTS_TAG: u8 = 0x43;

/// The byte that separates the fields of a record: `;`.
pub const FIELD_SEPARATOR: u8 = 0x3B;

/// The state of a server that knows no client and holds no message.
pub open spec fn empty_state() -> TaskHandlerModel {
    TaskHandlerModel {
        clients: Seq::<ClientModel>::empty(),
        active_connections: Seq::<Seq<u8>>::empty(),
        offline_messages: Seq::<(Seq<u8>, Seq<PublishModel>)>::empty(),
        retained_messages: Seq::<(TopicNameModel, Seq<PublishModel>)>::empty(),
    }
}

/// The clients after a subscription restored from a backup is added after those of its
/// client; a client not seen yet is added, after the others.
pub open spec fn restore_subscription(clients: Seq<ClientModel>, id: Seq<u8>, f: TopicFilterModel) -> Seq<ClientModel> {
    match client_position(clients, id) {
        Some(i) => clients.update(i, ClientModel { id, subscriptions: clients[i].subscriptions.push(f) }),
        None => clients.push(ClientModel { id, subscriptions: seq![f] }),
    }
}

/// The message that a record holds: a PUBLISH packet read under the key, the bytes after it
/// ignored. `None` when the bytes cannot be read as a packet; `Some(None)` when they are read
/// as something else than a PUBLISH packet.
pub open spec fn record_message(value: Seq<u8>, key: Seq<u8>) -> Option<Option<PublishModel>> {
    match decode_packet(value, key) {
        None => None,
        Some(Ok((PacketModel::Publish(p), _))) => Some(Some(p)),
        Some(_) => Some(None),
    }
}

/// Restoring one line of a backup: a record is three fields separated by `;`: a tag, then a
/// key and a value, both in hexadecimal. A queued message ("O") goes to the queue of its
/// client; a retained message ("R") to the messages retained on its topic; a subscription
/// ("C") to its client. Lines that are not records, and records that cannot be read, are
/// skipped. `None` when the line cannot be read at all: a hexadecimal field cut short, or a
/// message that cannot be read as a packet.
pub open spec fn restore_line(m: TaskHandlerModel, line: Seq<u8>, key: Seq<u8>) -> Option<TaskHandlerModel> {
    let parts = split_bytes(line, FIELD_SEPARATOR);
    if parts.len() != 3 {
        Some(m)
    } else {
        match hex_pairs(parts[1], 0) {
            None => None,
            Some(None) => Some(m),
            Some(Some(entry_key)) => match hex_pairs(parts[2], 0) {
                None => None,
                Some(None) => Some(m),
                Some(Some(value)) => if parts[0] == seq![OFFLINE_MESSAGES_TAG] {
                    match record_message(value, key) {
                        None => None,
                        Some(None) => Some(m),
                        Some(Some(p)) => Some(TaskHandlerModel {
                            clients: m.clients,
                            active_connections: m.active_connections,
                            offline_messages: enqueue(m.offline_messages, entry_key, p),
                            retained_messages: m.retained_messages,
                        }),
                    }
                } else if parts[0] == seq![RETAINED_MESSAGES_TAG] {
                    match decode_topic_name(entry_key) {
                        Err(_) => Some(m),
                        Ok((topic, _)) => match record_message(value, key) {
                            None => None,
                            Some(None) => Some(m),
                            Some(Some(p)) => Some(TaskHandlerModel {
                                clients: m.clients,
                                active_connections: m.active_connections,
                                offline_messages: m.offline_messages,
                                retained_messages: enqueue(m.retained_messages, topic, p),
                            }),
                        },
                    }
                } else if parts[0] == seq![CLIENTS_TAG] {
                    match decode_topic_filter(value) {
                        Err(_) => Some(m),
                        Ok((f, _)) => Some(TaskHandlerModel {
                            clients: restore_subscription(m.clients, entry_key, f),
                            active_connections: m.active_connections,
                            offline_messages: m.offline_messages,
                            retained_messages: m.retained_messages,
                        }),
                    }
                } else {
                    Some(m)
                },
            },
        }
    }
}

/// Restoring lines of a backup one after the other, from the state of a server that knows
/// nothing. `None` when a line cannot be read at all.
pub open spec fn restore_lines(lines: Seq<Seq<u8>>, key: Seq<u8>) -> Option<TaskHandlerModel>
    decreases lines.len(),
{
    if lines.len() == 0 {
        Some(empty_state())
    } else {
        match restore_lines(lines.drop_last(), key) {
            None => None,
            Some(m) => restore_line(m, lines.last(), key),
        }
    }
}

/// Restoring the state of a server from the text of a backup, line by line.
pub open spec fn restore_backup(text: Seq<char>, key: Seq<u8>) -> Option<TaskHandlerModel> {
    restore_lines(text_lines(vstd::utf8::encode_utf8(text)), key)
}

/// A record of a backup: a message queued for a client, a message retained on a topic, or a
/// subscription of a client.
pub enum BackupRecord {
    Offline(Seq<u8>, PublishModel),
    Retained(TopicNameModel, PublishModel),
    Subscription(Seq<u8>, TopicFilterModel),
}

/// The records of the messages queued for clients, queue after queue.
pub open spec fn offline_records(queues: Seq<(Seq<u8>, Seq<PublishModel>)>) -> Seq<BackupRecord>
    decreases queues.len(),
{
    if queues.len() == 0 {
        Seq::<BackupRecord>::empty()
    } else {
        offline_records(queues.drop_last()) + queues.last().1.map_values(|p: PublishModel| BackupRecord::Offline(queues.last().0, p))
    }
}

/// The records of the retained messages, topic after topic.
pub open spec fn retained_records(queues: Seq<(TopicNameModel, Seq<PublishModel>)>) -> Seq<BackupRecord>
    decreases queues.len(),
{
    if queues.len() == 0 {
        Seq::<BackupRecord>::empty()
    } else {
        retained_records(queues.drop_last()) + queues.last().1.map_values(|p: PublishModel| BackupRecord::Retained(queues.last().0, p))
    }
}

/// The records of the subscriptions, client after client.
pub open spec fn subscription_records(clients: Seq<ClientModel>) -> Seq<BackupRecord>
    decreases clients.len(),
{
    if clients.len() == 0 {
        Seq::<BackupRecord>::empty()
    } else {
        subscription_records(clients.drop_last()) + clients.last().subscriptions.map_values(
            |f: TopicFilterModel| BackupRecord::Subscription(clients.last().id, f),
        )
    }
}

/// The records that a backup of the state holds: the queued messages, then the retained
/// messages, then the subscriptions. Connections are not kept.
pub open spec fn backup_records(m: TaskHandlerModel) -> Seq<BackupRecord> {
    offline_records(m.offline_messages) + retained_records(m.retained_messages) + subscription_records(m.clients)
}

/// The line of a record whose value has the bytes `value`: the tag, the key and the value in
/// hexadecimal, separated by `;`, then a line feed.
pub open spec fn record_line(r: BackupRecord, value: Seq<u8>) -> Seq<char> {
    let (tag, key) = match r {
        BackupRecord::Offline(id, _) => ("O"@, id),
        BackupRecord::Retained(topic, _) => ("R"@, encode_topic_name(topic)),
        BackupRecord::Subscription(id, _) => ("C"@, id),
    };
    tag + ";"@ + hex_text(key) + ";"@ + hex_text(value) + "\n"@
}

/// The value of a record: the bytes of its message sent under the key, or of its filter.
pub open spec fn record_value(r: BackupRecord, value: Seq<u8>, key: Seq<u8>) -> bool {
    match r {
        BackupRecord::Offline(_, p) => packet_bytes(PacketModel::Publish(p), value, key),
        BackupRecord::Retained(_, p) => packet_bytes(PacketModel::Publish(p), value, key),
        BackupRecord::Subscription(_, f) => value == encode_topic_filter(f),
    }
}

/// The text of records whose values have the given bytes: their lines, one after the other.
pub open spec fn backup_text(records: Seq<BackupRecord>, values: Seq<Seq<u8>>) -> Seq<char>
    decreases records.len(),
{
    if records.len() == 0 || values.len() == 0 {
        Seq::<char>::empty()
    } else {
        backup_text(records.drop_last(), values.drop_last()) + record_line(records.last(), values.last())
    }
}

/// `text` is a backup of the records: there are bytes for each record's value, each the
/// bytes of its message sent under the key or of its filter, and the text is their lines.
pub open spec fn is_backup_of(text: Seq<char>, records: Seq<BackupRecord>, key: Seq<u8>) -> bool {
    exists|values: Seq<Seq<u8>>|
        #![trigger backup_text(records, values)]
        values.len() == records.len() && (forall|j: int| 0 <= j < records.len() ==> record_value(#[trigger] records[j], values[j], key))
            && text == backup_text(records, values)
}

/// Appends the line of a record: the tag, the key and the value in hexadecimal, separated by
/// `;`, then a line feed.
pub fn push_record_line(text: &mut String, tag: &str, key: &[u8], value: &[u8])
    ensures
        final(text)@ == old(text)@ + (tag@ + ";"@ + hex_text(key@) + ";"@ + hex_text(value@) + "\n"@),
{
    text.append(tag);
    text.append(";");
    text.append(bytes_to_hex(key).as_str());
    text.append(";");
    text.append(bytes_to_hex(value).as_str());
    text.append("\n");
    assert(text@ =~= old(text)@ + (tag@ + ";"@ + hex_text(key@) + ";"@ + hex_text(value@) + "\n"@));
}

/// The text of bytes in hexadecimal has two digits per byte, the high one first.
proof fn lemma_hex_text_shape(bytes: Seq<u8>)
    ensures
        hex_text(bytes).len() == 2 * bytes.len(),
        forall|i: int|
            0 <= i < bytes.len() ==> #[trigger] hex_text(bytes)[2 * i] == hex_digit_char((bytes[i] / 16) as nat)
                && hex_text(bytes)[2 * i + 1] == hex_digit_char((bytes[i] % 16) as nat),
    decreases bytes.len(),
{
    if bytes.len() > 0 {
        lemma_hex_text_shape(bytes.drop_last());
        let prefix = hex_text(bytes.drop_last());
        assert forall|i: int| 0 <= i < bytes.len() implies #[trigger] hex_text(bytes)[2 * i] == hex_digit_char(
            (bytes[i] / 16) as nat,
        ) && hex_text(bytes)[2 * i + 1] == hex_digit_char((bytes[i] % 16) as nat) by {
            if i < bytes.len() - 1 {
                assert(bytes.drop_last()[i] == bytes[i]);
                assert(prefix[2 * i] == hex_digit_char((bytes[i] / 16) as nat));
            }
        }
    }
}

/// A digit character is read back as its value, and is never a sign.
proof fn lemma_hex_digit_value(d: nat)
    requires
        d < 16,
    ensures
        (hex_digit_char(d) as u32) < 0x80,
        hex_value(hex_digit_char(d) as u8) == Some(d as u8),
        hex_digit_char(d) as u8 != 0x2B,
{
    let c = hex_digit_char(d);
    if d < 10 {
        vstd::utf8::char_u32_cast(c, (d + 0x30) as u32);
        assert((c as u32) == d + 0x30);
    } else {
        assert((c as u32) == d - 10 + 0x41);
    }
}

/// Reading pairs from position `2 * m` on, where every pair stands for its byte and every
/// position is a character boundary, gives the bytes from `m` on.
proof fn lemma_hex_pairs_from(bytes: Seq<u8>, e: Seq<u8>, m: int)
    requires
        0 <= m <= bytes.len(),
        e.len() == 2 * bytes.len(),
        forall|i: int| 0 <= i < bytes.len() ==> hex_pair_value(e[2 * i], e[2 * i + 1]) == Some(#[trigger] bytes[i]),
        forall|j: int| 0 <= j < e.len() ==> !vstd::utf8::is_continuation_byte(#[trigger] e[j]),
    ensures
        hex_pairs(e, (2 * m) as nat) == Some(Some(bytes.skip(m))),
    decreases bytes.len() - m,
{
    if m < bytes.len() {
        lemma_hex_pairs_from(bytes, e, m + 1);
        if 2 * m + 2 < e.len() {
            assert(!vstd::utf8::is_continuation_byte(e[2 * m + 2]));
        }
        assert(hex_pair_value(e[2 * m], e[2 * m + 1]) == Some(bytes[m]));
        assert(seq![bytes[m]] + bytes.skip(m + 1) =~= bytes.skip(m));
    } else {
        assert(bytes.skip(m) =~= Seq::<u8>::empty());
    }
}

/// Reading back the hexadecimal text of bytes gives the bytes: what a backup writes in
/// hexadecimal is read back unchanged.
pub proof fn lemma_hex_roundtrip(bytes: Seq<u8>)
    ensures
        hex_pairs(vstd::utf8::encode_utf8(hex_text(bytes)), 0) == Some(Some(bytes)),
{
    let t = hex_text(bytes);
    lemma_hex_text_shape(bytes);
    assert forall|j: int| 0 <= j < t.len() implies '\0' <= #[trigger] t[j] <= '\u{7f}' by {
        let i = j / 2;
        assert(j == 2 * i || j == 2 * i + 1);
        lemma_hex_digit_value((bytes[i] / 16) as nat);
        lemma_hex_digit_value((bytes[i] % 16) as nat);
        assert(t[2 * i] == hex_digit_char((bytes[i] / 16) as nat));
        assert(t[2 * i + 1] == hex_digit_char((bytes[i] % 16) as nat));
        assert((t[j] as u32) < 0x80);
    }
    assert(vstd::utf8::is_ascii_chars(t));
    vstd::utf8::is_ascii_chars_encode_utf8(t);
    let e = vstd::utf8::encode_utf8(t);
    assert forall|j: int| 0 <= j < e.len() implies !vstd::utf8::is_continuation_byte(#[trigger] e[j]) by {
        let i = j / 2;
        assert(j == 2 * i || j == 2 * i + 1);
        lemma_hex_digit_value((bytes[i] / 16) as nat);
        lemma_hex_digit_value((bytes[i] % 16) as nat);
        assert(e[j] == t[j] as u8);
        assert((t[j] as u32) < 0x80);
    }
    assert forall|i: int| 0 <= i < bytes.len() implies hex_pair_value(e[2 * i], e[2 * i + 1]) == Some(#[trigger] bytes[i]) by {
        lemma_hex_digit_value((bytes[i] / 16) as nat);
        lemma_hex_digit_value((bytes[i] % 16) as nat);
        assert(e[2 * i] == t[2 * i] as u8);
        assert(e[2 * i + 1] == t[2 * i + 1] as u8);
        let high = (bytes[i] / 16) as u8;
        let low = (bytes[i] % 16) as u8;
        assert((high * 16 + low) as u8 == bytes[i]);
    }
    lemma_hex_pairs_from(bytes, e, 0);
    assert(bytes.skip(0) =~= bytes);
}

/// Every byte of the hexadecimal text of bytes, encoded, is a digit.
pub proof fn lemma_hex_text_digits(bytes: Seq<u8>)
    ensures
        forall|j: int|
            0 <= j < vstd::utf8::encode_utf8(hex_text(bytes)).len() ==> hex_value(
                #[trigger] vstd::utf8::encode_utf8(hex_text(bytes))[j],
            ) is Some,
{
    let t = hex_text(bytes);
    lemma_hex_text_shape(bytes);
    assert forall|j: int| 0 <= j < t.len() implies '\0' <= #[trigger] t[j] <= '\u{7f}' && hex_value(t[j] as u8) is Some by {
        let i = j / 2;
        assert(j == 2 * i || j == 2 * i + 1);
        lemma_hex_digit_value((bytes[i] / 16) as nat);
        lemma_hex_digit_value((bytes[i] % 16) as nat);
        assert(t[2 * i] == hex_digit_char((bytes[i] / 16) as nat));
        assert(t[2 * i + 1] == hex_digit_char((bytes[i] % 16) as nat));
        assert((t[j] as u32) < 0x80);
    }
    assert(vstd::utf8::is_ascii_chars(t));
    vstd::utf8::is_ascii_chars_encode_utf8(t);
}

} // verus!
