use vstd::prelude::*;

use crate::errors::error::{decimal, push_decimal, MqttError, MqttErrorModel, MqttResult};

verus! {

/// Represents the different return codes of a Suback in MQTT.
#[derive(PartialEq, Eq, Debug, Clone, Copy, Structural)]
pub enum SubackReturnCode {
    SuccessMaximumQoS0,
    SuccessMaximumQoS1,
    SuccessMaximumQoS2,
    Failure,
}

/// The byte that stands for a subscription return code.
pub open spec fn suback_return_code_byte(code: SubackReturnCode) -> u8 {
    match code {
        SubackReturnCode::SuccessMaximumQoS0 => 0x00,
        SubackReturnCode::SuccessMaximumQoS1 => 0x01,
        SubackReturnCode::SuccessMaximumQoS2 => 0x02,
        SubackReturnCode::Failure => 0x80,
    }
}

/// The subscription return code a byte stands for: bytes 0, 1, 2 and 0x80 only; any other
/// byte is refused with a message that names it in decimal.
pub open spec fn suback_return_code_of_byte(byte: u8) -> Result<SubackReturnCode, MqttErrorModel> {
    if byte == 0x00 {
        Ok(SubackReturnCode::SuccessMaximumQoS0)
    } else if byte == 0x01 {
        Ok(SubackReturnCode::SuccessMaximumQoS1)
    } else if byte == 0x02 {
        Ok(SubackReturnCode::SuccessMaximumQoS2)
    } else if byte == 0x80 {
        Ok(SubackReturnCode::Failure)
    } else {
        Err(MqttErrorModel::InvalidReturnCode("Invalid SubackReturnCode: "@ + decimal(byte as nat)))
    }
}

impl SubackReturnCode {
    /// Converts the return code of a Suback to a byte.
    pub fn to_byte(&self) -> (byte: u8)
        ensures
            byte == suback_return_code_byte(*self),
    {
        match self {
            SubackReturnCode::SuccessMaximumQoS0 => 0x00,
            SubackReturnCode::SuccessMaximumQoS1 => 0x01,
            SubackReturnCode::SuccessMaximumQoS2 => 0x02,
            SubackReturnCode::Failure => 0x80,
        }
    }

    /// Converts a byte into a Suback return code.
    pub fn from_byte(byte: u8) -> (result: MqttResult<Self>)
        ensures
            match suback_return_code_of_byte(byte) {
                Ok(code) => result == Ok::<SubackReturnCode, MqttError>(code),
                Err(e) => result matches Err(err) && err@ == e,
            },
    {
        match byte {
            0x00 => Ok(SubackReturnCode::SuccessMaximumQoS0),
            0x01 => Ok(SubackReturnCode::SuccessMaximumQoS1),
            0x02 => Ok(SubackReturnCode::SuccessMaximumQoS2),
            0x80 => Ok(SubackReturnCode::Failure),
            _ => {
                let mut message = String::from_str("Invalid SubackReturnCode: ");
                push_decimal(&mut message, byte);
                Err(MqttError::InvalidReturnCode(message))
            },
        }
    }
}

/// Every subscription return code is read back from its byte, and every byte that is read as a
/// subscription return code is that code's byte.
pub proof fn lemma_suback_return_code_roundtrip(code: SubackReturnCode, byte: u8)
    ensures
        suback_return_code_of_byte(suback_return_code_byte(code)) == Ok::<SubackReturnCode, MqttErrorModel>(code),
        suback_return_code_of_byte(byte) matches Ok(c) ==> suback_return_code_byte(c) == byte,
{
}

} // verus!
