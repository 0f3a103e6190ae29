use mqtt::common::camera_status::CameraStatus;
use mqtt::common::incident::IncidentStatus;

#[test]
fn test_incident_status_from_string() {
    let status = IncidentStatus::from_string("0".to_string());

    assert_eq!(status, IncidentStatus::Pending);
}

#[test]
fn test_incident_status_meaning() {
    let status = IncidentStatus::Pending;

    assert_eq!(status.meaning(), "Pending");
}

#[test]
fn test_incident_status_meanings() {
    assert_eq!(IncidentStatus::InProgress.meaning(), "In Progress");
    assert_eq!(IncidentStatus::Resolvable.meaning(), "Resolvable");
    assert_eq!(IncidentStatus::Resolved.meaning(), "Resolved");
}

#[test]
fn test_incident_status_code_roundtrip() {
    for status in [
        IncidentStatus::Pending,
        IncidentStatus::InProgress,
        IncidentStatus::Resolvable,
        IncidentStatus::Resolved,
    ] {
        assert_eq!(IncidentStatus::from_string(status.code()), status);
    }
    assert_eq!(IncidentStatus::Resolved.code(), "3");
}

#[test]
fn test_camera_status_names_and_codes() {
    assert_eq!(CameraStatus::Active.to_str(), "Active");
    assert_eq!(CameraStatus::Sleep.to_str(), "Inactive");
    assert_eq!(CameraStatus::Active.code(), "1");
    assert_eq!(CameraStatus::Sleep.code(), "0");
}

use mqtt::common::incident::Incident;

fn incident1(x: &str, y: &str) -> Incident {
    Incident::new(
        "incident1".to_string(),
        "incident1".to_string(),
        "incident1".to_string(),
        x.to_string(),
        y.to_string(),
        IncidentStatus::Pending,
    )
}

#[test]
fn incident_test_new_incident() {
    let incident = incident1("1.0", "1.0");
    assert_eq!(incident.uuid, "incident1");
    assert_eq!(incident.name, "incident1");
    assert_eq!(incident.description, "incident1");
    assert_eq!(incident.x_coordinate, "1.0");
    assert_eq!(incident.y_coordinate, "1.0");
    assert_eq!(incident.status, IncidentStatus::Pending);
}

#[test]
fn test_incident_from_string() {
    let incident = Incident::from_string("incident1;incident1;incident1;1.0;1.0;0".to_string()).unwrap();
    assert_eq!(incident.uuid, "incident1");
    assert_eq!(incident.name, "incident1");
    assert_eq!(incident.description, "incident1");
    assert_eq!(incident.x_coordinate, "1.0");
    assert_eq!(incident.y_coordinate, "1.0");
    assert_eq!(incident.status, IncidentStatus::Pending);
}

#[test]
fn test_incident_from_string_invalid() {
    let incident = Incident::from_string("incident1;incident1;incident1;1.0;1.0".to_string());
    assert_eq!(incident.unwrap_err(), "Invalid incident string");
}

#[test]
fn test_incident_display() {
    let incident = incident1("1", "1");
    assert_eq!(incident.to_string(), "incident1;incident1;incident1;1;1;0");
}

#[test]
fn test_incident_data_read_back() {
    let mut incident = incident1("-34.6", "58.4");
    incident.set_status(IncidentStatus::Resolvable);
    incident.change_incident_name("Fire".to_string());
    incident.change_incident_description("North side".to_string());
    let back = Incident::from_string(incident.to_string()).unwrap();
    assert_eq!(back.id(), "incident1");
    assert_eq!(back.name, "Fire");
    assert_eq!(back.description, "North side");
    assert_eq!(back.x_coordinate, "-34.6");
    assert_eq!(back.y_coordinate, "58.4");
    assert_eq!(back.status(), IncidentStatus::Resolvable);
}

#[test]
fn test_incident_try_from_string_bad_status() {
    assert!(Incident::try_from_string("a;b;c;1;2;9".to_string()).is_none());
    assert!(matches!(Incident::try_from_string("a;b;c;1;2".to_string()), Some(Err(_))));
    assert!(matches!(Incident::try_from_string("a;b;c;1;2;3".to_string()), Some(Ok(i)) if i.status == IncidentStatus::Resolved));
}
