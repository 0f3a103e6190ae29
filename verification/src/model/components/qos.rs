use vstd::prelude::*;

use crate::errors::error::{MqttError, MqttErrorModel, MqttResult};

verus! {

/// Represents the different levels of quality of service (QoS) in MQTT.
#[derive(PartialEq, Eq, PartialOrd, Ord, Debug, Clone, Copy, Structural)]
pub enum QoS {
    /// Messages are delivered at most once.
    AtMost,
    /// Messages are delivered at least once.
    AtLeast,
    /// Messages are delivered exactly once.
    Exactly,
}

/// The byte that stands for a quality of service.
pub open spec fn qos_byte(qos: QoS) -> u8 {
    match qos {
        QoS::AtMost => 0x00,
        QoS::AtLeast => 0x01,
        QoS::Exactly => 0x02,
    }
}

/// The quality of service a byte stands for: bytes 0, 1 and 2 only.
pub open spec fn qos_of_byte(byte: u8) -> Result<QoS, MqttErrorModel> {
    if byte == 0x00 {
        Ok(QoS::AtMost)
    } else if byte == 0x01 {
        Ok(QoS::AtLeast)
    } else if byte == 0x02 {
        Ok(QoS::Exactly)
    } else {
        Err(MqttErrorModel::InvalidQoSLevel)
    }
}

impl QoS {
    /// Converts the QoS to a byte.
    pub fn to_byte(&self) -> (byte: u8)
        ensures
            byte == qos_byte(*self),
    {
        match self {
            QoS::AtMost => 0x00,
            QoS::AtLeast => 0x01,
            QoS::Exactly => 0x02,
        }
    }

    /// Converts a byte into a QoS.
    pub fn from_byte(byte: u8) -> (result: MqttResult<Self>)
        ensures
            match qos_of_byte(byte) {
                Ok(qos) => result == Ok::<QoS, MqttError>(qos),
                Err(e) => result matches Err(err) && err@ == e,
            },
    {
        match byte {
            0x00 => Ok(QoS::AtMost),
            0x01 => Ok(QoS::AtLeast),
            0x02 => Ok(QoS::Exactly),
            _ => Err(MqttError::InvalidQoSLevel),
        }
    }
}

/// Every quality of service is read back from its byte, and every byte that is read as a
/// quality of service is that quality's byte.
pub proof fn lemma_qos_byte_roundtrip(qos: QoS, byte: u8)
    ensures
        qos_of_byte(qos_byte(qos)) == Ok::<QoS, MqttErrorModel>(qos),
        qos_of_byte(byte) matches Ok(q) ==> qos_byte(q) == byte,
{
}

} // verus!
