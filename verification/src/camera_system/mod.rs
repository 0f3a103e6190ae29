/// a camera: what it follows and what it has seen
pub mod camera;
/// the cameras together, and the incidents they follow
pub mod camera_system;
