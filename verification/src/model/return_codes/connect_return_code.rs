use vstd::prelude::*;

use crate::errors::error::{decimal, push_decimal, MqttError, MqttErrorModel, MqttResult};

verus! {

/// Represents the different connection return codes in MQTT.
#[derive(PartialEq, Eq, Debug, Clone, Copy, Structural)]
pub enum ConnectReturnCode {
    ConnectionAccepted,
    UnacceptableProtocolVersion,
    IdentifierRejected,
    ServerUnavailable,
    BadUsernameOrPassword,
    NotAuthorized,
}

/// The byte that stands for a connection return code.
pub open spec fn connect_return_code_byte(code: ConnectReturnCode) -> u8 {
    match code {
        ConnectReturnCode::ConnectionAccepted => 0x00,
        ConnectReturnCode::UnacceptableProtocolVersion => 0x01,
        ConnectReturnCode::IdentifierRejected => 0x02,
        ConnectReturnCode::ServerUnavailable => 0x03,
        ConnectReturnCode::BadUsernameOrPassword => 0x04,
        ConnectReturnCode::NotAuthorized => 0x05,
    }
}

/// The connection return code a byte stands for: bytes 0 to 5 only; any other byte is
/// refused with a message that names it in decimal.
pub open spec fn connect_return_code_of_byte(byte: u8) -> Result<ConnectReturnCode, MqttErrorModel> {
    if byte == 0x00 {
        Ok(ConnectReturnCode::ConnectionAccepted)
    } else if byte == 0x01 {
        Ok(ConnectReturnCode::UnacceptableProtocolVersion)
    } else if byte == 0x02 {
        Ok(ConnectReturnCode::IdentifierRejected)
    } else if byte == 0x03 {
        Ok(ConnectReturnCode::ServerUnavailable)
    } else if byte == 0x04 {
        Ok(ConnectReturnCode::BadUsernameOrPassword)
    } else if byte == 0x05 {
        Ok(ConnectReturnCode::NotAuthorized)
    } else {
        Err(MqttErrorModel::InvalidReturnCode("Invalid ConnackReturnCode: "@ + decimal(byte as nat)))
    }
}

impl ConnectReturnCode {
    /// Converts the connection return code to a byte.
    pub fn to_byte(&self) -> (byte: u8)
        ensures
            byte == connect_return_code_byte(*self),
    {
        match self {
            ConnectReturnCode::ConnectionAccepted => 0x00,
            ConnectReturnCode::UnacceptableProtocolVersion => 0x01,
            ConnectReturnCode::IdentifierRejected => 0x02,
            ConnectReturnCode::ServerUnavailable => 0x03,
            ConnectReturnCode::BadUsernameOrPassword => 0x04,
            ConnectReturnCode::NotAuthorized => 0x05,
        }
    }

    /// Converts a byte into a connection return code.
    pub fn from_byte(byte: u8) -> (result: MqttResult<Self>)
        ensures
            match connect_return_code_of_byte(byte) {
                Ok(code) => result == Ok::<ConnectReturnCode, MqttError>(code),
                Err(e) => result matches Err(err) && err@ == e,
            },
    {
        match byte {
            0x00 => Ok(ConnectReturnCode::ConnectionAccepted),
            0x01 => Ok(ConnectReturnCode::UnacceptableProtocolVersion),
            0x02 => Ok(ConnectReturnCode::IdentifierRejected),
            0x03 => Ok(ConnectReturnCode::ServerUnavailable),
            0x04 => Ok(ConnectReturnCode::BadUsernameOrPassword),
            0x05 => Ok(ConnectReturnCode::NotAuthorized),
            _ => {
                let mut message = String::from_str("Invalid ConnackReturnCode: ");
                push_decimal(&mut message, byte);
                Err(MqttError::InvalidReturnCode(message))
            },
        }
    }
}

/// Every connection return code is read back from its byte, and every byte that is read as a
/// connection return code is that code's byte.
pub proof fn lemma_connect_return_code_roundtrip(code: ConnectReturnCode, byte: u8)
    ensures
        connect_return_code_of_byte(connect_return_code_byte(code)) == Ok::<ConnectReturnCode, MqttErrorModel>(code),
        connect_return_code_of_byte(byte) matches Ok(c) ==> connect_return_code_byte(c) == byte,
{
}

} // verus!
