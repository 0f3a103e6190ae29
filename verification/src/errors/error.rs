use vstd::prelude::*;

verus! {

/// The errors that decoding MQTT packets can produce.
#[derive(Debug)]
pub enum MqttError {
    InvalidQoSLevel,
    InvalidReserverdFlag,
    InvalidTopicName,
    InvalidProtocolName,
    InvalidProtocolLevel,
    InvalidRemainingLength,
    InvalidWillQoS,
    InvalidWillRetainFlag,
    InvalidPasswordFlag,
    InvalidFixedHeaderFlags,
    NoTopicsSpecified,
    InvalidPacketType(String),
    ErrorDecryption(String),
    InvalidWildcard(String),
    InvalidReturnCode(String),
    /// The stream ended before all the requested bytes could be read.
    IoError,
}

pub type MqttResult<T> = Result<T, MqttError>;

/// The mathematical value of an [`MqttError`]: messages are sequences of characters.
pub enum MqttErrorModel {
    InvalidQoSLevel,
    InvalidReserverdFlag,
    InvalidTopicName,
    InvalidProtocolName,
    InvalidProtocolLevel,
    InvalidRemainingLength,
    InvalidWillQoS,
    InvalidWillRetainFlag,
    InvalidPasswordFlag,
    InvalidFixedHeaderFlags,
    NoTopicsSpecified,
    InvalidPacketType(Seq<char>),
    ErrorDecryption(Seq<char>),
    InvalidWildcard(Seq<char>),
    InvalidReturnCode(Seq<char>),
    IoError,
}

impl View for MqttError {
    type V = MqttErrorModel;

    open spec fn view(&self) -> MqttErrorModel {
        match self {
            MqttError::InvalidQoSLevel => MqttErrorModel::InvalidQoSLevel,
            MqttError::InvalidReserverdFlag => MqttErrorModel::InvalidReserverdFlag,
            MqttError::InvalidTopicName => MqttErrorModel::InvalidTopicName,
            MqttError::InvalidProtocolName => MqttErrorModel::InvalidProtocolName,
            MqttError::InvalidProtocolLevel => MqttErrorModel::InvalidProtocolLevel,
            MqttError::InvalidRemainingLength => MqttErrorModel::InvalidRemainingLength,
            MqttError::InvalidWillQoS => MqttErrorModel::InvalidWillQoS,
            MqttError::InvalidWillRetainFlag => MqttErrorModel::InvalidWillRetainFlag,
            MqttError::InvalidPasswordFlag => MqttErrorModel::InvalidPasswordFlag,
            MqttError::InvalidFixedHeaderFlags => MqttErrorModel::InvalidFixedHeaderFlags,
            MqttError::NoTopicsSpecified => MqttErrorModel::NoTopicsSpecified,
            MqttError::InvalidPacketType(m) => MqttErrorModel::InvalidPacketType(m@),
            MqttError::ErrorDecryption(m) => MqttErrorModel::ErrorDecryption(m@),
            MqttError::InvalidWildcard(m) => MqttErrorModel::InvalidWildcard(m@),
            MqttError::InvalidReturnCode(m) => MqttErrorModel::InvalidReturnCode(m@),
            MqttError::IoError => MqttErrorModel::IoError,
        }
    }
}

/// The character of a decimal digit.
pub open spec fn digit_char(d: nat) -> char {
    if d == 0 { '0' }
    else if d == 1 { '1' }
    else if d == 2 { '2' }
    else if d == 3 { '3' }
    else if d == 4 { '4' }
    else if d == 5 { '5' }
    else if d == 6 { '6' }
    else if d == 7 { '7' }
    else if d == 8 { '8' }
    else { '9' }
}

/// The decimal notation of a natural number, without leading zeros.
pub open spec fn decimal(n: nat) -> Seq<char>
    decreases n,
{
    if n < 10 {
        seq![digit_char(n)]
    } else {
        decimal(n / 10).push(digit_char(n % 10))
    }
}

/// Appends the character of the digit `d` to `s`.
fn push_digit(s: &mut String, d: u8)
    requires
        d < 10,
    ensures
        final(s)@ == old(s)@.push(digit_char(d as nat)),
{
    let digit = match d {
        0 => "0",
        1 => "1",
        2 => "2",
        3 => "3",
        4 => "4",
        5 => "5",
        6 => "6",
        7 => "7",
        8 => "8",
        _ => "9",
    };
    proof {
        reveal_strlit("0");
        reveal_strlit("1");
        reveal_strlit("2");
        reveal_strlit("3");
        reveal_strlit("4");
        reveal_strlit("5");
        reveal_strlit("6");
        reveal_strlit("7");
        reveal_strlit("8");
        reveal_strlit("9");
    }
    s.append(digit);
}

/// Appends the decimal notation of `n` to `s`.
pub fn push_decimal(s: &mut String, n: u8)
    ensures
        final(s)@ == old(s)@ + decimal(n as nat),
{
    let ghost start = s@;
    if n >= 100 {
        push_digit(s, n / 100);
        push_digit(s, (n / 10) % 10);
        push_digit(s, n % 10);
        proof {
            let tens = (n / 10) as nat;
            assert(tens / 10 == n / 100);
            assert(decimal(tens) == decimal((n / 100) as nat).push(digit_char(tens % 10)));
            assert(decimal(n as nat) == decimal(tens).push(digit_char((n % 10) as nat)));
            assert(s@ =~= start + decimal(n as nat));
        }
    } else if n >= 10 {
        push_digit(s, n / 10);
        push_digit(s, n % 10);
        assert(decimal((n / 10) as nat) == seq![digit_char((n / 10) as nat)]);
        assert(decimal(n as nat) == decimal((n / 10) as nat).push(digit_char((n % 10) as nat)));
        assert(s@ =~= start + decimal(n as nat));
    } else {
        push_digit(s, n);
        assert(s@ =~= start + decimal(n as nat));
    }
}

} // verus!
