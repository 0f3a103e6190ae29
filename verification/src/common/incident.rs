use vstd::prelude::*;

use crate::bytes::{byte_seqs, join_bytes, split_bytes, split_on};
use crate::server::registration::SEPARATOR;
use crate::text::{lemma_encode_utf8_ascii_byte, lemma_encode_utf8_concat, lossy_string, utf8_lossy};

verus! {

/// Represents the different statuses an incident can have
#[derive(Debug, PartialEq, Eq, Clone, Copy, Structural)]
pub enum IncidentStatus {
    Pending,
    InProgress,
    Resolvable,
    Resolved,
}

/// The code of a status in an incident's data: its position among the statuses, in decimal.
pub open spec fn incident_status_code(status: IncidentStatus) -> Seq<char> {
    match status {
        IncidentStatus::Pending => "0"@,
        IncidentStatus::InProgress => "1"@,
        IncidentStatus::Resolvable => "2"@,
        IncidentStatus::Resolved => "3"@,
    }
}

/// Whether `text` is the code of some status.
pub open spec fn is_incident_status_code(text: Seq<char>) -> bool {
    text == "0"@ || text == "1"@ || text == "2"@ || text == "3"@
}

/// The meaning of a status, in words.
pub open spec fn incident_status_meaning(status: IncidentStatus) -> Seq<char> {
    match status {
        IncidentStatus::Pending => "Pending"@,
        IncidentStatus::InProgress => "In Progress"@,
        IncidentStatus::Resolvable => "Resolvable"@,
        IncidentStatus::Resolved => "Resolved"@,
    }
}

impl IncidentStatus {
    /// Creates a new incident status from its code.
    pub fn from_string(string: String) -> (status: Self)
        requires
            is_incident_status_code(string@),
        ensures
            incident_status_code(status) == string@,
    {
        proof {
            reveal_strlit("0");
            reveal_strlit("1");
            reveal_strlit("2");
            reveal_strlit("3");
        }
        if string == String::from_str("0") {
            IncidentStatus::Pending
        } else if string == String::from_str("1") {
            IncidentStatus::InProgress
        } else if string == String::from_str("2") {
            IncidentStatus::Resolvable
        } else {
            IncidentStatus::Resolved
        }
    }

    /// Returns the meaning of the incident status in string format
    pub fn meaning(&self) -> (meaning: String)
        ensures
            meaning@ == incident_status_meaning(*self),
    {
        match self {
            IncidentStatus::Pending => String::from_str("Pending"),
            IncidentStatus::InProgress => String::from_str("In Progress"),
            IncidentStatus::Resolvable => String::from_str("Resolvable"),
            IncidentStatus::Resolved => String::from_str("Resolved"),
        }
    }

    /// The code of the status in an incident's data, which [`IncidentStatus::from_string`] reads.
    pub fn code(&self) -> (code: String)
        ensures
            code@ == incident_status_code(*self),
    {
        match self {
            IncidentStatus::Pending => String::from_str("0"),
            IncidentStatus::InProgress => String::from_str("1"),
            IncidentStatus::Resolvable => String::from_str("2"),
            IncidentStatus::Resolved => String::from_str("3"),
        }
    }
}

/// The code of each status is a code, and reading it back gives the status: what an incident's
/// data holds is read back as it was written.
pub proof fn lemma_incident_status_code_roundtrip(status: IncidentStatus, other: IncidentStatus)
    ensures
        is_incident_status_code(incident_status_code(status)),
        incident_status_code(status) == incident_status_code(other) ==> status == other,
{
    reveal_strlit("0");
    reveal_strlit("1");
    reveal_strlit("2");
    reveal_strlit("3");
    if incident_status_code(status) == incident_status_code(other) {
        assert(incident_status_code(status)[0] == incident_status_code(other)[0]);
    }
}

/// Represents an incident. Its position stays the text that its data carries: reading that
/// text as numbers is left to the program that draws the incident.
#[derive(Debug)]
pub struct Incident {
    pub uuid: String,
    pub name: String,
    pub description: String,
    pub x_coordinate: String,
    pub y_coordinate: String,
    pub status: IncidentStatus,
}

/// The value of an [`Incident`].
pub struct IncidentModel {
    pub uuid: Seq<char>,
    pub name: Seq<char>,
    pub description: Seq<char>,
    pub x_coordinate: Seq<char>,
    pub y_coordinate: Seq<char>,
    pub status: IncidentStatus,
}

impl View for Incident {
    type V = IncidentModel;

    open spec fn view(&self) -> IncidentModel {
        IncidentModel {
            uuid: self.uuid@,
            name: self.name@,
            description: self.description@,
            x_coordinate: self.x_coordinate@,
            y_coordinate: self.y_coordinate@,
            status: self.status,
        }
    }
}

/// The fields of the data of an incident: its text, encoded, split at `;`, each piece read as
/// text.
pub open spec fn incident_fields(text: Seq<char>) -> Seq<Seq<char>> {
    split_bytes(vstd::utf8::encode_utf8(text), SEPARATOR).map_values(|piece: Seq<u8>| utf8_lossy(piece))
}

/// Whether the data of an incident has the six fields of an incident.
pub open spec fn incident_data_complete(text: Seq<char>) -> bool {
    incident_fields(text).len() == 6
}

/// The data of an incident: identifier, name, description, position and the code of its
/// status, separated by `;`.
pub open spec fn incident_data(
    uuid: Seq<char>,
    name: Seq<char>,
    description: Seq<char>,
    x: Seq<char>,
    y: Seq<char>,
    status: IncidentStatus,
) -> Seq<char> {
    uuid + ";"@ + name + ";"@ + description + ";"@ + x + ";"@ + y + ";"@ + incident_status_code(status)
}

/// The error of data that does not hold the six fields of an incident.
pub open spec fn invalid_incident_message() -> Seq<char> {
    "Invalid incident string"@
}

impl Incident {
    /// Creates a new incident
    pub fn new(
        uuid: String,
        name: String,
        description: String,
        x_coordinate: String,
        y_coordinate: String,
        status: IncidentStatus,
    ) -> (incident: Self)
        ensures
            incident.uuid@ == uuid@,
            incident.name@ == name@,
            incident.description@ == description@,
            incident.x_coordinate@ == x_coordinate@,
            incident.y_coordinate@ == y_coordinate@,
            incident.status == status,
    {
        Incident { uuid, name, description, x_coordinate, y_coordinate, status }
    }

    /// Creates a new incident from its data. Data without six fields is refused; a status that
    /// is no code is left out by the precondition.
    pub fn from_string(string: String) -> (result: Result<Self, String>)
        requires
            incident_data_complete(string@) ==> is_incident_status_code(incident_fields(string@)[5]),
        ensures
            match result {
                Ok(incident) => {
                    let fields = incident_fields(string@);
                    &&& incident_data_complete(string@)
                    &&& incident.uuid@ == fields[0]
                    &&& incident.name@ == fields[1]
                    &&& incident.description@ == fields[2]
                    &&& incident.x_coordinate@ == fields[3]
                    &&& incident.y_coordinate@ == fields[4]
                    &&& incident_status_code(incident.status) == fields[5]
                },
                Err(message) => !incident_data_complete(string@) && message@ == invalid_incident_message(),
            },
    {
        let pieces = split_on(string.as_str().as_bytes(), SEPARATOR);
        let ghost all = byte_seqs(pieces@);
        assert(incident_fields(string@) == all.map_values(|piece: Seq<u8>| utf8_lossy(piece)));
        if pieces.len() != 6 {
            return Err(String::from_str("Invalid incident string"));
        }
        assert(all[0] == pieces@[0]@ && all[1] == pieces@[1]@ && all[2] == pieces@[2]@);
        assert(all[3] == pieces@[3]@ && all[4] == pieces@[4]@ && all[5] == pieces@[5]@);
        let uuid = lossy_string(pieces[0].as_slice());
        let name = lossy_string(pieces[1].as_slice());
        let description = lossy_string(pieces[2].as_slice());
        let x_coordinate = lossy_string(pieces[3].as_slice());
        let y_coordinate = lossy_string(pieces[4].as_slice());
        let status = IncidentStatus::from_string(lossy_string(pieces[5].as_slice()));
        Ok(Incident { uuid, name, description, x_coordinate, y_coordinate, status })
    }

    /// Reads the data of an incident, or gives `None` where its status is no code.
    pub fn try_from_string(string: String) -> (result: Option<Result<Self, String>>)
        ensures
            match result {
                Some(r) => (incident_data_complete(string@) ==> is_incident_status_code(incident_fields(string@)[5]))
                    && match r {
                    Ok(incident) => {
                        let fields = incident_fields(string@);
                        &&& incident_data_complete(string@)
                        &&& incident.uuid@ == fields[0]
                        &&& incident.name@ == fields[1]
                        &&& incident.description@ == fields[2]
                        &&& incident.x_coordinate@ == fields[3]
                        &&& incident.y_coordinate@ == fields[4]
                        &&& incident_status_code(incident.status) == fields[5]
                    },
                    Err(message) => !incident_data_complete(string@) && message@ == invalid_incident_message(),
                },
                None => incident_data_complete(string@) && !is_incident_status_code(incident_fields(string@)[5]),
            },
    {
        let pieces = split_on(string.as_str().as_bytes(), SEPARATOR);
        let ghost all = byte_seqs(pieces@);
        assert(incident_fields(string@) == all.map_values(|piece: Seq<u8>| utf8_lossy(piece)));
        if pieces.len() == 6 {
            assert(all[5] == pieces@[5]@);
            let code = lossy_string(pieces[5].as_slice());
            proof {
                reveal_strlit("0");
                reveal_strlit("1");
                reveal_strlit("2");
                reveal_strlit("3");
            }
            if !(code == String::from_str("0") || code == String::from_str("1") || code == String::from_str("2")
                || code == String::from_str("3")) {
                return None;
            }
        }
        Some(Incident::from_string(string))
    }

    /// The data of the incident, which [`Incident::from_string`] reads.
    pub fn to_string(&self) -> (text: String)
        ensures
            text@ == incident_data(
                self.uuid@,
                self.name@,
                self.description@,
                self.x_coordinate@,
                self.y_coordinate@,
                self.status,
            ),
    {
        let mut text = self.uuid.clone();
        text.append(";");
        text.append(self.name.as_str());
        text.append(";");
        text.append(self.description.as_str());
        text.append(";");
        text.append(self.x_coordinate.as_str());
        text.append(";");
        text.append(self.y_coordinate.as_str());
        text.append(";");
        let code = self.status.code();
        text.append(code.as_str());
        text
    }

    /// Sets the status of the incident
    pub fn set_status(&mut self, status: IncidentStatus)
        ensures
            *final(self) == (Incident { status, ..*old(self) }),
    {
        self.status = status;
    }

    /// Changes the name of the incident
    pub fn change_incident_name(&mut self, name: String)
        ensures
            *final(self) == (Incident { name, ..*old(self) }),
    {
        self.name = name;
    }

    /// Changes the description of the incident
    pub fn change_incident_description(&mut self, description: String)
        ensures
            *final(self) == (Incident { description, ..*old(self) }),
    {
        self.description = description;
    }

    /// The identifier of the incident.
    pub fn id(&self) -> (id: String)
        ensures
            id@ == self.uuid@,
    {
        self.uuid.clone()
    }

    /// The status of the incident.
    pub fn status(&self) -> (status: IncidentStatus)
        ensures
            status == self.status,
    {
        self.status
    }
}

/// The bytes of ";".
proof fn lemma_separator_bytes()
    ensures
        vstd::utf8::encode_utf8(";"@) == seq![SEPARATOR],
        (';' as u32) < 0x80,
        (';' as u8) == SEPARATOR,
{
    let sep = ";"@;
    reveal_strlit(";");
    assert(sep == seq![';']);
    assert(sep.drop_first() =~= Seq::<char>::empty());
    let c = ';' as u32;
    assert(c == 0x3B);
    assert(c & 0x7F == 0x3B) by (bit_vector)
        requires
            c == 0x3B,
    ;
    assert(vstd::utf8::has_width_1_encoding(c));
    assert(vstd::utf8::encode_scalar(c) =~= seq![SEPARATOR]);
    assert(vstd::utf8::encode_utf8(sep.drop_first()) =~= Seq::<u8>::empty());
    assert(vstd::utf8::encode_utf8(sep) == vstd::utf8::encode_scalar(sep[0] as u32) + vstd::utf8::encode_utf8(
        sep.drop_first(),
    ));
    assert(vstd::utf8::encode_utf8(sep) =~= seq![SEPARATOR]);
}

/// The data of an incident splits back into its fields: when its identifier, name,
/// description and position hold no `;`, the bytes of its data split at `;` are the bytes of
/// those five fields and of the code of its status, in order.
pub proof fn lemma_incident_data_fields(
    uuid: Seq<char>,
    name: Seq<char>,
    description: Seq<char>,
    x: Seq<char>,
    y: Seq<char>,
    status: IncidentStatus,
)
    requires
        !uuid.contains(';'),
        !name.contains(';'),
        !description.contains(';'),
        !x.contains(';'),
        !y.contains(';'),
    ensures
        split_bytes(vstd::utf8::encode_utf8(incident_data(uuid, name, description, x, y, status)), SEPARATOR) == seq![
            vstd::utf8::encode_utf8(uuid),
            vstd::utf8::encode_utf8(name),
            vstd::utf8::encode_utf8(description),
            vstd::utf8::encode_utf8(x),
            vstd::utf8::encode_utf8(y),
            vstd::utf8::encode_utf8(incident_status_code(status)),
        ],
{
    let sep = ";"@;
    let code = incident_status_code(status);
    lemma_separator_bytes();
    reveal_strlit("0");
    reveal_strlit("1");
    reveal_strlit("2");
    reveal_strlit("3");
    assert(!code.contains(';')) by {
        if code.contains(';') {
            let k = choose|k: int| 0 <= k < code.len() && code[k] == ';';
            assert(code.len() == 1);
        }
    }
    let e = |t: Seq<char>| vstd::utf8::encode_utf8(t);
    lemma_encode_utf8_concat(uuid, sep);
    lemma_encode_utf8_concat(uuid + sep, name);
    lemma_encode_utf8_concat(uuid + sep + name, sep);
    lemma_encode_utf8_concat(uuid + sep + name + sep, description);
    lemma_encode_utf8_concat(uuid + sep + name + sep + description, sep);
    lemma_encode_utf8_concat(uuid + sep + name + sep + description + sep, x);
    lemma_encode_utf8_concat(uuid + sep + name + sep + description + sep + x, sep);
    lemma_encode_utf8_concat(uuid + sep + name + sep + description + sep + x + sep, y);
    lemma_encode_utf8_concat(uuid + sep + name + sep + description + sep + x + sep + y, sep);
    lemma_encode_utf8_concat(uuid + sep + name + sep + description + sep + x + sep + y + sep, code);
    let data = vstd::utf8::encode_utf8(incident_data(uuid, name, description, x, y, status));
    let s = seq![SEPARATOR];
    assert(data =~= e(uuid) + s + e(name) + s + e(description) + s + e(x) + s + e(y) + s + e(code));
    let fields = seq![e(uuid), e(name), e(description), e(x), e(y), e(code)];
    assert(join_bytes(fields, SEPARATOR) =~= data) by {
        let f1 = fields.take(1);
        let f2 = fields.take(2);
        let f3 = fields.take(3);
        let f4 = fields.take(4);
        let f5 = fields.take(5);
        assert(f2.drop_last() =~= f1);
        assert(f3.drop_last() =~= f2);
        assert(f4.drop_last() =~= f3);
        assert(f5.drop_last() =~= f4);
        assert(fields.drop_last() =~= f5);
        assert(join_bytes(f1, SEPARATOR) == e(uuid));
        assert(join_bytes(f2, SEPARATOR) == join_bytes(f1, SEPARATOR).push(SEPARATOR) + e(name));
        assert(join_bytes(f3, SEPARATOR) == join_bytes(f2, SEPARATOR).push(SEPARATOR) + e(description));
        assert(join_bytes(f4, SEPARATOR) == join_bytes(f3, SEPARATOR).push(SEPARATOR) + e(x));
        assert(join_bytes(f5, SEPARATOR) == join_bytes(f4, SEPARATOR).push(SEPARATOR) + e(y));
        assert(join_bytes(fields, SEPARATOR) == join_bytes(f5, SEPARATOR).push(SEPARATOR) + e(code));
    }
    lemma_encode_utf8_ascii_byte(uuid, ';');
    lemma_encode_utf8_ascii_byte(name, ';');
    lemma_encode_utf8_ascii_byte(description, ';');
    lemma_encode_utf8_ascii_byte(x, ';');
    lemma_encode_utf8_ascii_byte(y, ';');
    lemma_encode_utf8_ascii_byte(code, ';');
    crate::bytes::lemma_split_join(fields, SEPARATOR);
}

} // verus!
