/// the forms and messages the monitor works with
pub mod channels_tasks;
/// what the monitor sends and how it reads what it receives
pub mod client;
/// the decisions of the monitor's loop, one event at a time
pub mod session;
