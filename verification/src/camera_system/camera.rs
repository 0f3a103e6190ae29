use vstd::prelude::*;

use crate::common::camera_status::CameraStatus;

verus! {

/// Represents a camera in the camera system: its identifier, whether it is awake, how many
/// active incidents it follows and the images it has already seen. Where it stands, and how
/// far it sees, are kept apart, with the positions of the incidents.
#[derive(Debug)]
pub struct Camera {
    id: u8,
    status: CameraStatus,
    active_incidents: usize,
    seen_images: Vec<String>,
}

/// The value of a [`Camera`].
pub struct CameraModel {
    pub id: u8,
    pub status: CameraStatus,
    pub active_incidents: nat,
    pub seen_images: Set<Seq<char>>,
}

/// The texts of strings.
pub open spec fn texts(strings: Seq<String>) -> Seq<Seq<char>> {
    strings.map_values(|s: String| s@)
}

impl View for Camera {
    type V = CameraModel;

    closed spec fn view(&self) -> CameraModel {
        CameraModel {
            id: self.id,
            status: self.status,
            active_incidents: self.active_incidents as nat,
            seen_images: texts(self.seen_images@).to_set(),
        }
    }
}

/// A camera after it follows one more incident: the first one wakes it up.
pub open spec fn followed(c: CameraModel) -> CameraModel {
    CameraModel {
        active_incidents: c.active_incidents + 1,
        status: if c.active_incidents == 0 { CameraStatus::Active } else { c.status },
        ..c
    }
}

/// A camera after it stops following one incident: following none, it goes to sleep.
pub open spec fn unfollowed(c: CameraModel) -> CameraModel {
    CameraModel {
        active_incidents: (c.active_incidents - 1) as nat,
        status: if c.active_incidents == 1 { CameraStatus::Sleep } else { c.status },
        ..c
    }
}

impl CameraModel {
    /// A camera sleeps exactly when it follows no incident.
    pub open spec fn wf(self) -> bool {
        (self.status == CameraStatus::Sleep) == (self.active_incidents == 0)
    }
}

impl Camera {
    /// Creates a new camera: asleep, following no incident, having seen no image.
    pub fn new(id: u8) -> (camera: Self)
        ensures
            camera@ == (CameraModel {
                id,
                status: CameraStatus::Sleep,
                active_incidents: 0,
                seen_images: Set::<Seq<char>>::empty(),
            }),
            camera@.wf(),
    {
        let camera = Camera { id, status: CameraStatus::Sleep, active_incidents: 0, seen_images: Vec::new() };
        assert(texts(camera.seen_images@).to_set() =~= Set::<Seq<char>>::empty());
        camera
    }

    /// Returns the id of the camera
    pub fn id(&self) -> (id: u8)
        ensures
            id == self@.id,
    {
        self.id
    }

    /// Returns the status of the camera
    pub fn status(&self) -> (status: CameraStatus)
        ensures
            status == self@.status,
    {
        self.status
    }

    /// Returns the number of active incidents that the camera follows
    pub fn active_incidents(&self) -> (n: usize)
        ensures
            n == self@.active_incidents,
    {
        self.active_incidents
    }

    /// Increases the number of active incidents followed by the camera; the first one wakes it
    /// up.
    pub fn follow_incident(&mut self)
        requires
            old(self)@.active_incidents < usize::MAX,
        ensures
            final(self)@ == followed(old(self)@),
            old(self)@.wf() ==> final(self)@.wf(),
    {
        if self.active_incidents == 0 {
            self.activate();
        }
        self.active_incidents = self.active_incidents + 1;
    }

    /// Decreases the number of active incidents followed by the camera; following none, it
    /// goes to sleep.
    pub fn unfollow_incident(&mut self)
        requires
            old(self)@.active_incidents > 0,
        ensures
            final(self)@ == unfollowed(old(self)@),
            old(self)@.wf() ==> final(self)@.wf(),
    {
        self.active_incidents = self.active_incidents - 1;
        if self.active_incidents == 0 {
            self.deactivate();
        }
    }

    /// Changes the status of the camera to active
    fn activate(&mut self)
        ensures
            final(self)@ == (CameraModel { status: CameraStatus::Active, ..old(self)@ }),
    {
        self.status = CameraStatus::Active;
    }

    /// Changes the status of the camera to sleep
    fn deactivate(&mut self)
        ensures
            final(self)@ == (CameraModel { status: CameraStatus::Sleep, ..old(self)@ }),
    {
        self.status = CameraStatus::Sleep;
    }

    /// Return true if the camera is sleeping
    pub fn is_sleeping(&self) -> (sleeping: bool)
        ensures
            sleeping == (self@.status == CameraStatus::Sleep),
    {
        match self.status {
            CameraStatus::Sleep => true,
            CameraStatus::Active => false,
        }
    }

    /// Returns true if the camera has already seen the image
    pub fn has_already_seen(&self, image: &str) -> (seen: bool)
        ensures
            seen == self@.seen_images.contains(image@),
    {
        let wanted = String::from_str(image);
        let ghost all = texts(self.seen_images@);
        let mut i: usize = 0;
        while i < self.seen_images.len()
            invariant
                i <= self.seen_images.len(),
                all == texts(self.seen_images@),
                wanted@ == image@,
                forall|j: int| 0 <= j < i ==> all[j] != image@,
            decreases self.seen_images.len() - i,
        {
            assert(all[i as int] == self.seen_images@[i as int]@);
            if self.seen_images[i] == wanted {
                assert(all.contains(image@));
                return true;
            }
            i = i + 1;
        }
        proof {
            if all.to_set().contains(image@) {
                assert(all.contains(image@));
                let k = choose|k: int| 0 <= k < all.len() && all[k] == image@;
                assert(all[k] != image@);
            }
        }
        false
    }

    /// Adds an image to the images the camera has seen
    pub fn add_seen_image(&mut self, image: &str)
        ensures
            final(self)@ == (CameraModel { seen_images: old(self)@.seen_images.insert(image@), ..old(self)@ }),
    {
        let ghost before = texts(self.seen_images@);
        self.seen_images.push(String::from_str(image));
        assert(texts(self.seen_images@) =~= before.push(image@));
        proof {
            before.lemma_push_to_set_commute(image@);
        }
    }

    /// A copy of the camera.
    pub fn copy(&self) -> (camera: Camera)
        ensures
            camera@ == self@,
    {
        let mut seen_images: Vec<String> = Vec::new();
        let mut i: usize = 0;
        while i < self.seen_images.len()
            invariant
                i <= self.seen_images.len(),
                texts(seen_images@) == texts(self.seen_images@).take(i as int),
            decreases self.seen_images.len() - i,
        {
            let ghost before = texts(seen_images@);
            seen_images.push(self.seen_images[i].clone());
            assert(texts(seen_images@) =~= before.push(self.seen_images@[i as int]@));
            assert(texts(self.seen_images@).take(i + 1) =~= texts(self.seen_images@).take(i as int).push(
                self.seen_images@[i as int]@,
            ));
            i = i + 1;
        }
        assert(texts(self.seen_images@).take(i as int) =~= texts(self.seen_images@));
        Camera { id: self.id, status: self.status, active_incidents: self.active_incidents, seen_images }
    }
}

} // verus!
