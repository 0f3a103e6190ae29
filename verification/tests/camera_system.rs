use mqtt::camera_system::camera::Camera;
use mqtt::camera_system::camera_system::CameraSystem;
use mqtt::common::camera_status::CameraStatus;

#[test]
fn test_follow_incident() {
    let mut camera = Camera::new(1);
    camera.follow_incident();
    assert_eq!(camera.active_incidents(), 1);
    assert_eq!(camera.status(), CameraStatus::Active);
}

#[test]
fn test_unfollow_incident() {
    let mut camera = Camera::new(1);
    camera.follow_incident();
    camera.unfollow_incident();
    assert_eq!(camera.active_incidents(), 0);
    assert_eq!(camera.status(), CameraStatus::Sleep);
}

#[test]
fn test_camera_stays_awake_while_following() {
    let mut camera = Camera::new(2);
    camera.follow_incident();
    camera.follow_incident();
    camera.unfollow_incident();
    assert_eq!(camera.active_incidents(), 1);
    assert_eq!(camera.status(), CameraStatus::Active);
    assert!(!camera.is_sleeping());
}

#[test]
fn test_camera_seen_images() {
    let mut camera = Camera::new(3);
    assert!(!camera.has_already_seen("a.jpg"));
    camera.add_seen_image("a.jpg");
    assert!(camera.has_already_seen("a.jpg"));
    assert!(!camera.has_already_seen("b.jpg"));
}

#[test]
fn test_camera_system_incident_lifecycle() {
    let mut system = CameraSystem::new();
    system.add_camera(Camera::new(1));
    system.add_camera(Camera::new(2));
    system.new_incident("incident1".to_string(), &vec![true, false]);
    let sleeping: Vec<u8> = system.sleeping_cameras().iter().map(|c| c.id()).collect();
    assert_eq!(sleeping, vec![2]);

    system.close_incident(&"unknown".to_string(), &vec![true, true]);
    let sleeping: Vec<u8> = system.sleeping_cameras().iter().map(|c| c.id()).collect();
    assert_eq!(sleeping, vec![2]);

    system.close_incident(&"incident1".to_string(), &vec![true, false]);
    let sleeping: Vec<u8> = system.sleeping_cameras().iter().map(|c| c.id()).collect();
    assert_eq!(sleeping, vec![1, 2]);
}

#[test]
fn test_camera_system_seen_image() {
    let mut system = CameraSystem::new();
    system.add_camera(Camera::new(1));
    system.add_camera(Camera::new(2));
    system.add_seen_image(2, "x.png");
    let cameras = system.sleeping_cameras();
    assert!(!cameras[0].has_already_seen("x.png"));
    assert!(cameras[1].has_already_seen("x.png"));
}
