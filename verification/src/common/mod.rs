/// the statuses of a camera
pub mod camera_status;
/// the statuses of an incident
pub mod incident;
