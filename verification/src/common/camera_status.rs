use vstd::prelude::*;

verus! {

/// The different statuses a camera can have.
#[derive(Clone, Copy, Debug, PartialEq, Eq, Structural)]
pub enum CameraStatus {
    Active,
    Sleep,
}

/// The name of a status, as the monitor shows it.
pub open spec fn camera_status_name(status: CameraStatus) -> Seq<char> {
    match status {
        CameraStatus::Active => "Active"@,
        CameraStatus::Sleep => "Inactive"@,
    }
}

/// The code of a status in the camera's data: "1" when active, "0" when asleep.
pub open spec fn camera_status_code(status: CameraStatus) -> Seq<char> {
    match status {
        CameraStatus::Active => "1"@,
        CameraStatus::Sleep => "0"@,
    }
}

impl CameraStatus {
    /// The name of the status, as the monitor shows it.
    pub fn to_str(&self) -> (name: String)
        ensures
            name@ == camera_status_name(*self),
    {
        match self {
            CameraStatus::Active => String::from_str("Active"),
            CameraStatus::Sleep => String::from_str("Inactive"),
        }
    }

    /// The code of the status in the camera's data: "1" when active, "0" when asleep.
    pub fn code(&self) -> (code: String)
        ensures
            code@ == camera_status_code(*self),
    {
        match self {
            CameraStatus::Active => String::from_str("1"),
            CameraStatus::Sleep => String::from_str("0"),
        }
    }
}

} // verus!
