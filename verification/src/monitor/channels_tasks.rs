use vstd::prelude::*;

verus! {


/// Represents a drone registration
#[derive(Clone, Debug)]
pub struct DroneRegistration {
    pub id: String,
    pub username: String,
    pub password: String,
}

/// Represents the form to register an incident
#[derive(Clone, Debug)]
pub struct IncidentRegistration {
    pub name: String,
    pub description: String,
    pub x: String,
    pub y: String,
}

/// Represents the form to edit an incident
#[derive(Clone, Debug)]
pub struct IncidentEdit {
    pub uuid: String,
    pub name: String,
    pub description: String,
}

/// The message that registers a drone: its identifier, username and password, separated by `;`.
pub open spec fn drone_message(id: Seq<char>, username: Seq<char>, password: Seq<char>) -> Seq<char> {
    id + ";"@ + username + ";"@ + password
}

impl DroneRegistration {
    /// The message that registers the drone: "id;username;password".
    pub fn build_drone_message(&self) -> (message: String)
        ensures
            message@ == drone_message(self.id@, self.username@, self.password@),
    {
        let mut message = self.id.clone();
        message.append(";");
        message.append(self.username.as_str());
        message.append(";");
        message.append(self.password.as_str());
        message
    }
}

} // verus!
