/// components of MQTT packets
pub mod components;
/// return codes of MQTT packets
pub mod return_codes;
/// MQTT packets
pub mod packets;
/// a packet of any type
pub mod packet;
