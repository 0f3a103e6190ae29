use vstd::prelude::*;

use super::{
    fixed_header_flags, packet_header, seal_packet, sealed_packet, CONNECT_PACKET_TYPE,
    RESERVED_FIXED_HEADER_FLAGS,
};
use crate::errors::error::{MqttError, MqttErrorModel, MqttResult};
use crate::model::components::encoded_string::{
    decode_encoded_string, encode_encoded_string, encoded_string_of, encoded_string_wf,
    EncodedString, EncodedStringModel,
};
use crate::model::components::fixed_header::{FixedHeader, FixedHeaderModel};
use crate::model::components::login::{decode_login, encode_login, Login, LoginModel};
use crate::model::components::qos::{qos_byte, qos_of_byte, QoS};
use crate::model::components::topic_name::topic_name_wf;
use crate::model::components::will::{decode_will, encode_will, Will, WillModel};
use crate::stream::{be_bytes, be_u16, is_suffix, u16_to_be, ByteStream};

verus! {

/// The protocol level of MQTT 3.1.1.
pub const PROTOCOL_LEVEL: u8 = 0x04;

/// The name of the protocol, "MQTT", as a CONNECT packet carries it.
pub open spec fn mqtt_protocol_name() -> Seq<u8> {
    seq![0x4Du8, 0x51u8, 0x54u8, 0x54u8]
}

/// The bytes of the name of the protocol, "MQTT".
pub fn protocol_name_bytes() -> (bytes: Vec<u8>)
    ensures
        bytes@ == mqtt_protocol_name(),
{
    let bytes = vec![0x4Du8, 0x51u8, 0x54u8, 0x54u8];
    assert(bytes@ =~= mqtt_protocol_name());
    bytes
}

/// The protocol name that a packet carries is accepted: it is "MQTT".
pub open spec fn protocol_name_accepted(content: Seq<u8>) -> bool {
    content == mqtt_protocol_name()
}

/// Compares a protocol name with "MQTT".
fn check_protocol_name(content: &Vec<u8>) -> (accepted: bool)
    ensures
        accepted == protocol_name_accepted(content@),
{
    let expected_name = protocol_name_bytes();
    crate::bytes::bytes_equal(content.as_slice(), expected_name.as_slice())
}

/// Represents a MQTT CONNECT packet used to initialize a connection with the server.
#[derive(Debug)]
pub struct Connect {
    // Variable Header Fields
    clean_session: bool,
    keep_alive: u16,
    // Payload Fields
    client_id: EncodedString,
    will: Option<Will>,
    login: Option<Login>,
}

/// The value of a [`Connect`].
pub struct ConnectModel {
    pub clean_session: bool,
    pub keep_alive: u16,
    pub client_id: EncodedStringModel,
    pub will: Option<WillModel>,
    pub login: Option<LoginModel>,
}

impl View for Connect {
    type V = ConnectModel;

    closed spec fn view(&self) -> ConnectModel {
        ConnectModel {
            clean_session: self.clean_session,
            keep_alive: self.keep_alive,
            client_id: self.client_id@,
            will: match &self.will {
                Some(w) => Some(w@),
                None => None,
            },
            login: match &self.login {
                Some(l) => Some(l@),
                None => None,
            },
        }
    }
}

/// Whether bit `n` of `byte` is set.
pub open spec fn bit(byte: u8, n: u8) -> bool {
    (byte >> n) & 1 == 1
}

/// Reading the will of a CONNECT packet from `s` when the will flag is set.
#[verifier::opaque]
pub open spec fn decode_connect_will(s: Seq<u8>, flags: u8, will_qos: QoS) -> Result<(Option<WillModel>, Seq<u8>), MqttErrorModel> {
    if bit(flags, 2) {
        match decode_will(s, will_qos, bit(flags, 5)) {
            Err(e) => Err(e),
            Ok((w, rest)) => Ok((Some(w), rest)),
        }
    } else {
        Ok((None, s))
    }
}

/// Reading the login of a CONNECT packet from `s` when the username flag is set.
#[verifier::opaque]
pub open spec fn decode_connect_login(s: Seq<u8>, flags: u8) -> Result<(Option<LoginModel>, Seq<u8>), MqttErrorModel> {
    if bit(flags, 7) {
        match decode_login(s, bit(flags, 6)) {
            Err(e) => Err(e),
            Ok((l, rest)) => Ok((Some(l), rest)),
        }
    } else {
        Ok((None, s))
    }
}

/// Reading the payload of a CONNECT packet from `s`, once its flags have been read: the client
/// identifier, then the will when the will flag is set, then the login when the username flag is
/// set.
#[verifier::opaque]
pub open spec fn decode_connect_payload(
    s: Seq<u8>,
    clean_session: bool,
    keep_alive: u16,
    flags: u8,
    will_qos: QoS,
) -> Result<(ConnectModel, Seq<u8>), MqttErrorModel> {
    match decode_encoded_string(s) {
        Err(e) => Err(e),
        Ok((client_id, r1)) => match decode_connect_will(r1, flags, will_qos) {
            Err(e) => Err(e),
            Ok((will, r2)) => match decode_connect_login(r2, flags) {
                Err(e) => Err(e),
                Ok((login, r3)) => Ok((ConnectModel { clean_session, keep_alive, client_id, will, login }, r3)),
            },
        },
    }
}

/// Checking the flags byte of a CONNECT packet: the reserved bit is clear, the quality of service
/// of the will is valid, and the will's quality of service and retain flag, and the password
/// flag, are set only along with the will flag and the username flag. Gives the quality of
/// service of the will.
pub open spec fn check_connect_flags(flags: u8) -> Result<QoS, MqttErrorModel> {
    if flags & 1 != 0 {
        Err(MqttErrorModel::InvalidReserverdFlag)
    } else {
        match qos_of_byte((flags >> 3) & 0x03) {
            Err(e) => Err(e),
            Ok(will_qos) => if !bit(flags, 2) && will_qos !is AtMost {
                Err(MqttErrorModel::InvalidWillQoS)
            } else if !bit(flags, 2) && bit(flags, 5) {
                Err(MqttErrorModel::InvalidWillRetainFlag)
            } else if !bit(flags, 7) && bit(flags, 6) {
                Err(MqttErrorModel::InvalidPasswordFlag)
            } else {
                Ok(will_qos)
            },
        }
    }
}

/// Reading what follows the protocol name of a CONNECT packet from `r`: the protocol level, the
/// flags, the keep alive, then the payload.
pub open spec fn decode_connect_after_name(r: Seq<u8>) -> Result<(ConnectModel, Seq<u8>), MqttErrorModel> {
    if r.len() < 1 {
        Err(MqttErrorModel::IoError)
    } else if r[0] != PROTOCOL_LEVEL {
        Err(MqttErrorModel::InvalidProtocolLevel)
    } else if r.len() < 2 {
        Err(MqttErrorModel::IoError)
    } else {
        match check_connect_flags(r[1]) {
            Err(e) => Err(e),
            Ok(will_qos) => if r.len() < 4 {
                Err(MqttErrorModel::IoError)
            } else {
                decode_connect_payload(r.skip(4), bit(r[1], 1), be_u16(r[2], r[3]), r[1], will_qos)
            },
        }
    }
}

/// Reading the variable header of a CONNECT packet from `s`, checking each field, then its payload.
pub open spec fn decode_connect_variable_header(s: Seq<u8>) -> Result<(ConnectModel, Seq<u8>), MqttErrorModel> {
    match decode_encoded_string(s) {
        Err(e) => Err(e),
        Ok((name, r)) => if !protocol_name_accepted(name.content) {
            Err(MqttErrorModel::InvalidProtocolName)
        } else {
            decode_connect_after_name(r)
        },
    }
}

/// Reading a CONNECT packet whose fixed header is `h` from `s`.
pub open spec fn decode_connect(h: FixedHeaderModel, s: Seq<u8>) -> Result<(ConnectModel, Seq<u8>), MqttErrorModel> {
    if fixed_header_flags(h.first_byte) != RESERVED_FIXED_HEADER_FLAGS {
        Err(MqttErrorModel::InvalidFixedHeaderFlags)
    } else {
        decode_connect_variable_header(s)
    }
}

/// The flags byte of a CONNECT packet: clean session (bit 1), will (bit 2), quality of service
/// of the will (bits 3 and 4), retain of the will (bit 5), password (bit 6), username (bit 7).
pub open spec fn connect_flags(m: ConnectModel) -> u8 {
    let c: u8 = if m.clean_session { 1 } else { 0 };
    let w: u8 = if m.will is Some { 1 } else { 0 };
    let q: u8 = match m.will {
        Some(will) => qos_byte(will.qos),
        None => 0,
    };
    let r: u8 = match m.will {
        Some(will) => if will.retain { 1 } else { 0 },
        None => 0,
    };
    let p: u8 = match m.login {
        Some(login) => if login.password is Some { 1 } else { 0 },
        None => 0,
    };
    let u: u8 = if m.login is Some { 1 } else { 0 };
    c << 1 | w << 2 | q << 3 | r << 5 | p << 6 | u << 7
}

/// The payload of a CONNECT packet: the client identifier, then the will and the login when
/// there are.
pub open spec fn encode_connect_payload(m: ConnectModel) -> Seq<u8> {
    encode_encoded_string(m.client_id) + match m.will {
        Some(w) => encode_will(w),
        None => Seq::<u8>::empty(),
    } + match m.login {
        Some(l) => encode_login(l),
        None => Seq::<u8>::empty(),
    }
}

/// The content of a CONNECT packet: the protocol name, the protocol level, the flags, the keep
/// alive, then the payload.
pub open spec fn encode_connect_content(m: ConnectModel) -> Seq<u8> {
    encode_encoded_string(encoded_string_of(mqtt_protocol_name())) + seq![PROTOCOL_LEVEL, connect_flags(m)]
        + be_bytes(m.keep_alive) + encode_connect_payload(m)
}

/// A CONNECT packet whose strings and topics are well formed.
pub open spec fn connect_wf(m: ConnectModel) -> bool {
    &&& encoded_string_wf(m.client_id)
    &&& m.will matches Some(w) ==> topic_name_wf(w.topic) && encoded_string_wf(w.message)
    &&& m.login matches Some(l) ==> encoded_string_wf(l.username) && (l.password matches Some(p) ==> encoded_string_wf(p))
}

impl Connect {
    pub fn new(
        clean_session: bool,
        keep_alive: u16,
        client_id: EncodedString,
        will: Option<Will>,
        login: Option<Login>,
    ) -> (c: Self)
        ensures
            c@ == (ConnectModel {
                clean_session,
                keep_alive,
                client_id: client_id@,
                will: match will {
                    Some(w) => Some(w@),
                    None => None,
                },
                login: match login {
                    Some(l) => Some(l@),
                    None => None,
                },
            }),
    {
        Self { clean_session, keep_alive, client_id, will, login }
    }

    /// Converts a stream of bytes into a Connect.
    pub fn from_bytes(fixed_header: FixedHeader, stream: &mut ByteStream) -> (result: MqttResult<Self>)
        ensures
            match decode_connect(fixed_header@, old(stream)@) {
                Ok((m, rest)) => result matches Ok(c) && c@ == m && final(stream)@ == rest,
                Err(e) => result matches Err(err) && err@ == e,
            },
            is_suffix(final(stream)@, old(stream)@),
    {
        let ghost s = stream@;
        proof {
            crate::stream::lemma_suffix_refl(s);
        }
        // Fixed Header
        let fixed_header_flags = fixed_header.first_byte() & 0b0000_1111;

        if fixed_header_flags != RESERVED_FIXED_HEADER_FLAGS {
            return Err(MqttError::InvalidFixedHeaderFlags);
        }

        // Variable Header
        let protocol_name = match EncodedString::from_bytes(stream) {
            Ok(value) => value,
            Err(e) => {
                return Err(e);
            },
        };
        let ghost r1 = stream@;
        if !check_protocol_name(protocol_name.content()) {
            return Err(MqttError::InvalidProtocolName);
        }

        let protocol_level_byte = stream.read_u8();
        proof {
            if r1.len() >= 1 {
                crate::stream::lemma_suffix_skip(r1, 1);
                crate::stream::lemma_suffix_trans(stream@, r1, s);
            }
        }
        let protocol_level_byte = match protocol_level_byte {
            Ok(value) => value,
            Err(e) => {
                return Err(e);
            },
        };

        if protocol_level_byte != PROTOCOL_LEVEL {
            return Err(MqttError::InvalidProtocolLevel);
        }

        let flags_byte = stream.read_u8();
        proof {
            if r1.len() >= 2 {
                assert(stream@ =~= r1.skip(2));
                crate::stream::lemma_suffix_skip(r1, 2);
                crate::stream::lemma_suffix_trans(stream@, r1, s);
            }
        }
        let flags_byte = match flags_byte {
            Ok(value) => value,
            Err(e) => {
                return Err(e);
            },
        };
        assert(flags_byte == r1[1]);

        let reserved = flags_byte & 0b0000_0001;
        if reserved != 0 {
            return Err(MqttError::InvalidReserverdFlag);
        }

        let clean_session = (flags_byte >> 1) & 1 == 1;
        let will_flag = (flags_byte >> 2) & 1 == 1;

        let will_qos = match QoS::from_byte((flags_byte >> 3) & 0b11) {
            Ok(value) => value,
            Err(e) => {
                return Err(e);
            },
        };
        if !will_flag && (will_qos != QoS::AtMost) {
            return Err(MqttError::InvalidWillQoS);
        }

        let will_retain = (flags_byte >> 5) & 1 == 1;
        if !will_flag && will_retain {
            return Err(MqttError::InvalidWillRetainFlag);
        }

        let username_flag = (flags_byte >> 7) & 1 == 1;

        let password_flag = (flags_byte >> 6) & 1 == 1;
        if !username_flag && password_flag {
            return Err(MqttError::InvalidPasswordFlag);
        }

        let ghost r3 = stream@;
        let keep_alive = stream.read_u16();
        proof {
            if r3.len() >= 2 {
                crate::stream::lemma_suffix_skip(r3, 2);
                crate::stream::lemma_suffix_trans(stream@, r3, s);
                assert(stream@ =~= r1.skip(4));
            }
        }
        let keep_alive = match keep_alive {
            Ok(value) => value,
            Err(e) => {
                return Err(e);
            },
        };
        assert(keep_alive == be_u16(r1[2], r1[3]));

        // Payload
        proof {
            reveal(decode_connect_payload);
            reveal(decode_connect_will);
            reveal(decode_connect_login);
        }
        let ghost r4 = stream@;
        let client_id = EncodedString::from_bytes(stream);
        proof {
            crate::stream::lemma_suffix_trans(stream@, r4, s);
        }
        let client_id = match client_id {
            Ok(value) => value,
            Err(e) => {
                return Err(e);
            },
        };

        let ghost r5 = stream@;
        let will = if will_flag {
            let will = Will::from_bytes(stream, will_qos, will_retain);
            proof {
                crate::stream::lemma_suffix_trans(stream@, r5, s);
            }
            match will {
                Ok(value) => Some(value),
                Err(e) => {
                    return Err(e);
                },
            }
        } else {
            None
        };

        let ghost r6 = stream@;
        let login = if username_flag {
            let login = Login::from_bytes(stream, password_flag);
            proof {
                crate::stream::lemma_suffix_trans(stream@, r6, s);
            }
            match login {
                Ok(value) => Some(value),
                Err(e) => {
                    return Err(e);
                },
            }
        } else {
            None
        };

        Ok(Connect::new(clean_session, keep_alive, client_id, will, login))
    }

    /// The content of the packet, before it is encrypted.
    pub(crate) fn content(&self) -> (bytes: Vec<u8>)
        ensures
            bytes@ == encode_connect_content(self@),
    {
        // Variable Header
        let protocol_name = EncodedString::new(protocol_name_bytes());
        let mut data_bytes = protocol_name.to_bytes();
        data_bytes.push(PROTOCOL_LEVEL);

        let (will_flag, will_qos, retain_flag): (u8, u8, u8) = match &self.will {
            Some(will) => (1, will.qos().to_byte(), if will.retain() { 1 } else { 0 }),
            None => (0, 0, 0),
        };

        let (username_flag, password_flag): (u8, u8) = match &self.login {
            Some(login) => (1, if login.password().is_some() { 1 } else { 0 }),
            None => (0, 0),
        };

        let clean_session_flag: u8 = if self.clean_session { 1 } else { 0 };
        let flags_byte = clean_session_flag << 1 | will_flag << 2 | will_qos << 3 | retain_flag << 5
            | password_flag << 6 | username_flag << 7;
        assert(flags_byte == connect_flags(self@));

        data_bytes.push(flags_byte);
        crate::bytes::append_bytes(&mut data_bytes, u16_to_be(self.keep_alive).as_slice());

        // Payload
        crate::bytes::append_bytes(&mut data_bytes, self.client_id.to_bytes().as_slice());

        if let Some(will) = &self.will {
            crate::bytes::append_bytes(&mut data_bytes, will.to_bytes().as_slice());
        }

        if let Some(login) = &self.login {
            crate::bytes::append_bytes(&mut data_bytes, login.to_bytes().as_slice());
        }
        assert(data_bytes@ =~= encode_connect_content(self@));
        data_bytes
    }

    /// Converts the Connect into a vector of bytes.
    pub fn to_bytes(&self, key: &[u8]) -> (bytes: Vec<u8>)
        requires
            key@.len() == 32,
            encode_connect_content(self@).len() <= u32::MAX,
        ensures
            sealed_packet(
                bytes@,
                packet_header(CONNECT_PACKET_TYPE << 4 | RESERVED_FIXED_HEADER_FLAGS, encode_connect_content(self@).len()),
                encode_connect_content(self@),
                key@,
            ),
    {
        seal_packet(CONNECT_PACKET_TYPE << 4 | RESERVED_FIXED_HEADER_FLAGS, self.content(), key)
    }

    /// Returns if the session is clean.
    pub fn clean_session(&self) -> (clean: bool)
        ensures
            clean == self@.clean_session,
    {
        self.clean_session
    }

    /// Returns the keep alive of the Connect.
    pub fn keep_alive(&self) -> (keep_alive: u16)
        ensures
            keep_alive == self@.keep_alive,
    {
        self.keep_alive
    }

    /// Returns the client id of the Connect.
    pub fn client_id(&self) -> (client_id: &EncodedString)
        ensures
            client_id@ == self@.client_id,
    {
        &self.client_id
    }

    /// Returns a reference to the Connect's Will.
    pub fn will(&self) -> (will: Option<&Will>)
        ensures
            match will {
                Some(w) => self@.will == Some(w@),
                None => self@.will is None,
            },
    {
        self.will.as_ref()
    }

    /// Returns a reference to the Connect's Login.
    pub fn login(&self) -> (login: Option<&Login>)
        ensures
            match login {
                Some(l) => self@.login == Some(l@),
                None => self@.login is None,
            },
    {
        self.login.as_ref()
    }
}

/// The bits of the flags byte of a CONNECT packet read back as they were set.
proof fn lemma_connect_flags_bits(c: u8, w: u8, q: u8, r: u8, p: u8, u: u8)
    requires
        c <= 1,
        w <= 1,
        q <= 2,
        r <= 1,
        p <= 1,
        u <= 1,
    ensures
        ({
            let f = c << 1 | w << 2 | q << 3 | r << 5 | p << 6 | u << 7;
            &&& f & 1 == 0
            &&& (f >> 1) & 1 == c
            &&& (f >> 2) & 1 == w
            &&& (f >> 3) & 0x03 == q
            &&& (f >> 5) & 1 == r
            &&& (f >> 6) & 1 == p
            &&& (f >> 7) & 1 == u
        }),
{
    let f = c << 1 | w << 2 | q << 3 | r << 5 | p << 6 | u << 7;
    assert(f & 1 == 0 && (f >> 1) & 1 == c && (f >> 2) & 1 == w && (f >> 3) & 0x03 == q && (f >> 5) & 1 == r
        && (f >> 6) & 1 == p && (f >> 7) & 1 == u) by (bit_vector)
        requires
            c <= 1,
            w <= 1,
            q <= 2,
            r <= 1,
            p <= 1,
            u <= 1,
            f == c << 1 | w << 2 | q << 3 | r << 5 | p << 6 | u << 7,
    ;
}

/// Reading back the will of a CONNECT packet under flags that announce it.
proof fn lemma_connect_will_roundtrip(will: Option<WillModel>, rest: Seq<u8>, flags: u8, will_qos: QoS)
    requires
        bit(flags, 2) == will is Some,
        will matches Some(w) ==> w.qos == will_qos && bit(flags, 5) == w.retain && topic_name_wf(w.topic)
            && encoded_string_wf(w.message),
    ensures
        decode_connect_will(
            match will {
                Some(w) => encode_will(w),
                None => Seq::<u8>::empty(),
            } + rest,
            flags,
            will_qos,
        ) == Ok::<(Option<WillModel>, Seq<u8>), MqttErrorModel>((will, rest)),
{
    reveal(decode_connect_will);
    match will {
        Some(w) => {
            crate::model::components::will::lemma_will_roundtrip(w, rest);
        },
        None => {
            assert(Seq::<u8>::empty() + rest =~= rest);
        },
    }
}

/// Reading back the login of a CONNECT packet under flags that announce it.
proof fn lemma_connect_login_roundtrip(login: Option<LoginModel>, rest: Seq<u8>, flags: u8)
    requires
        bit(flags, 7) == login is Some,
        login matches Some(l) ==> bit(flags, 6) == l.password is Some && encoded_string_wf(l.username)
            && (l.password matches Some(p) ==> encoded_string_wf(p)),
    ensures
        decode_connect_login(
            match login {
                Some(l) => encode_login(l),
                None => Seq::<u8>::empty(),
            } + rest,
            flags,
        ) == Ok::<(Option<LoginModel>, Seq<u8>), MqttErrorModel>((login, rest)),
{
    reveal(decode_connect_login);
    match login {
        Some(l) => {
            crate::model::components::login::lemma_login_roundtrip(l, rest);
        },
        None => {
            assert(Seq::<u8>::empty() + rest =~= rest);
        },
    }
}

/// Reading back the payload of a well-formed CONNECT packet, under flags that announce its
/// will and login, gives it back and leaves the bytes that follow.
proof fn lemma_connect_payload_roundtrip(m: ConnectModel, rest: Seq<u8>, flags: u8, will_qos: QoS)
    requires
        connect_wf(m),
        bit(flags, 2) == m.will is Some,
        m.will matches Some(w) ==> w.qos == will_qos && bit(flags, 5) == w.retain,
        bit(flags, 7) == m.login is Some,
        m.login matches Some(l) ==> bit(flags, 6) == l.password is Some,
    ensures
        decode_connect_payload(encode_connect_payload(m) + rest, m.clean_session, m.keep_alive, flags, will_qos)
            == Ok::<(ConnectModel, Seq<u8>), MqttErrorModel>((m, rest)),
{
    reveal(decode_connect_payload);
    let will_bytes = match m.will {
        Some(wm) => encode_will(wm),
        None => Seq::<u8>::empty(),
    };
    let login_bytes = match m.login {
        Some(l) => encode_login(l),
        None => Seq::<u8>::empty(),
    };
    let after_will = login_bytes + rest;
    let after_client_id = will_bytes + after_will;
    assert(encode_connect_payload(m) + rest =~= encode_encoded_string(m.client_id) + after_client_id);
    crate::model::components::encoded_string::lemma_encoded_string_roundtrip(m.client_id, after_client_id);
    lemma_connect_will_roundtrip(m.will, after_will, flags, will_qos);
    lemma_connect_login_roundtrip(m.login, rest, flags);
    let s0 = encode_connect_payload(m) + rest;
    assert(decode_encoded_string(s0) == Ok::<(EncodedStringModel, Seq<u8>), MqttErrorModel>((m.client_id, after_client_id)));
    assert(decode_connect_will(after_client_id, flags, will_qos) == Ok::<(Option<WillModel>, Seq<u8>), MqttErrorModel>((m.will, after_will)));
    assert(decode_connect_login(after_will, flags) == Ok::<(Option<LoginModel>, Seq<u8>), MqttErrorModel>((m.login, rest)));
}

/// Reading back the content of a well-formed CONNECT packet, under the fixed header it is sent
/// with, gives it back and leaves the bytes that follow.
pub proof fn lemma_connect_roundtrip(m: ConnectModel, rest: Seq<u8>)
    requires
        connect_wf(m),
    ensures
        decode_connect(
            FixedHeaderModel {
                first_byte: CONNECT_PACKET_TYPE << 4 | RESERVED_FIXED_HEADER_FLAGS,
                remaining_length: encode_connect_content(m).len(),
            },
            encode_connect_content(m) + rest,
        ) == Ok::<(ConnectModel, Seq<u8>), MqttErrorModel>((m, rest)),
{
    let first: u8 = CONNECT_PACKET_TYPE << 4 | RESERVED_FIXED_HEADER_FLAGS;
    assert(first & 0x0F == 0) by (bit_vector)
        requires
            first == 0x01u8 << 4 | 0x00u8,
    ;
    let c: u8 = if m.clean_session { 1 } else { 0 };
    let w: u8 = if m.will is Some { 1 } else { 0 };
    let q: u8 = match m.will {
        Some(will) => qos_byte(will.qos),
        None => 0,
    };
    let r: u8 = match m.will {
        Some(will) => if will.retain { 1 } else { 0 },
        None => 0,
    };
    let p: u8 = match m.login {
        Some(login) => if login.password is Some { 1 } else { 0 },
        None => 0,
    };
    let u: u8 = if m.login is Some { 1 } else { 0 };
    let flags = connect_flags(m);
    lemma_connect_flags_bits(c, w, q, r, p, u);
    let will_qos = match m.will {
        Some(will) => will.qos,
        None => QoS::AtMost,
    };
    crate::model::components::qos::lemma_qos_byte_roundtrip(will_qos, 0);
    assert(check_connect_flags(flags) == Ok::<QoS, MqttErrorModel>(will_qos));
    lemma_connect_payload_roundtrip(m, rest, flags, will_qos);

    let name = encoded_string_of(mqtt_protocol_name());
    let payload = encode_connect_payload(m) + rest;
    let after_name = seq![PROTOCOL_LEVEL, flags] + be_bytes(m.keep_alive) + payload;
    assert(encode_connect_content(m) + rest =~= encode_encoded_string(name) + after_name);
    crate::model::components::encoded_string::lemma_encoded_string_roundtrip(name, after_name);
    assert(name.content =~= mqtt_protocol_name());
    assert(after_name.skip(4) =~= payload);
    crate::stream::lemma_be_u16_roundtrip(m.keep_alive);
}

} // verus!
