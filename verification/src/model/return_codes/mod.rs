/// return codes of CONNACK packets
pub mod connect_return_code;
/// return codes of SUBACK packets
pub mod suback_return_code;
