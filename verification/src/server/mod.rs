/// registering clients through the server-reserved topic
pub mod registration;
/// the text of the server's backups
pub mod backup;
/// what restoring a backup gives back
pub mod backup_laws;
/// the clients the server knows
pub mod client;
/// the messages the server logs
pub mod log_messages;
/// the state of the server and how each task changes it
pub mod task_handler;
/// what the server does with the packets a connected client sends
pub mod incoming;
/// the clients registered in the login file
pub mod login;
