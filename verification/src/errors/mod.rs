/// errors of the MQTT library
pub mod error;
