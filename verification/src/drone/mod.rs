/// what a drone makes of the messages it receives
pub mod client;
/// the battery and the work of a drone
pub mod drone;
/// the work of a drone on an incident
pub mod incident;
