use vstd::prelude::*;

use crate::camera_system::camera::{followed, texts, unfollowed, Camera, CameraModel};
use crate::common::camera_status::CameraStatus;

verus! {

/// The cameras, and the identifiers of the active incidents. Which cameras are near an
/// incident is decided where the positions are kept, and handed in.
#[derive(Debug)]
pub struct CameraSystem {
    cameras: Vec<Camera>,
    active_incidents: Vec<String>,
}

/// The value of a [`CameraSystem`]: the cameras, in the order they were added, and the
/// identifiers of the active incidents.
pub struct CameraSystemModel {
    pub cameras: Seq<CameraModel>,
    pub active_incidents: Set<Seq<char>>,
}

/// The values of cameras.
pub open spec fn cameras_view(cameras: Seq<Camera>) -> Seq<CameraModel> {
    cameras.map_values(|c: Camera| c@)
}

impl View for CameraSystem {
    type V = CameraSystemModel;

    closed spec fn view(&self) -> CameraSystemModel {
        CameraSystemModel {
            cameras: cameras_view(self.cameras@),
            active_incidents: texts(self.active_incidents@).to_set(),
        }
    }
}

/// Every camera sleeps exactly when it follows no incident.
pub open spec fn cameras_wf(cameras: Seq<CameraModel>) -> bool {
    forall|i: int| 0 <= i < cameras.len() ==> (#[trigger] cameras[i]).wf()
}

/// The cameras after those near a new incident follow it.
pub open spec fn follow_near(cameras: Seq<CameraModel>, near: Seq<bool>) -> Seq<CameraModel> {
    Seq::new(cameras.len(), |i: int| if near[i] { followed(cameras[i]) } else { cameras[i] })
}

/// The cameras after those near a closed incident stop following it.
pub open spec fn unfollow_near(cameras: Seq<CameraModel>, near: Seq<bool>) -> Seq<CameraModel> {
    Seq::new(cameras.len(), |i: int| if near[i] { unfollowed(cameras[i]) } else { cameras[i] })
}

/// The cameras that sleep, in order.
pub open spec fn sleeping(cameras: Seq<CameraModel>) -> Seq<CameraModel>
    decreases cameras.len(),
{
    if cameras.len() == 0 {
        cameras
    } else if cameras.last().status == CameraStatus::Sleep {
        sleeping(cameras.drop_last()).push(cameras.last())
    } else {
        sleeping(cameras.drop_last())
    }
}

/// The cameras after every one with the identifier saw the image.
pub open spec fn see_image(cameras: Seq<CameraModel>, camera_id: u8, image: Seq<char>) -> Seq<CameraModel> {
    Seq::new(
        cameras.len(),
        |i: int|
            if cameras[i].id == camera_id {
                CameraModel { seen_images: cameras[i].seen_images.insert(image), ..cameras[i] }
            } else {
                cameras[i]
            },
    )
}

/// The position of the identifier among the identifiers of the active incidents.
fn position_of(ids: &Vec<String>, id: &String) -> (position: Option<usize>)
    ensures
        match position {
            Some(i) => i < ids@.len() && ids@[i as int]@ == id@,
            None => !texts(ids@).contains(id@),
        },
{
    let mut i: usize = 0;
    while i < ids.len()
        invariant
            i <= ids.len(),
            forall|j: int| 0 <= j < i ==> ids@[j]@ != id@,
        decreases ids.len() - i,
    {
        if ids[i] == *id {
            return Some(i);
        }
        i = i + 1;
    }
    proof {
        if texts(ids@).contains(id@) {
            let k = choose|k: int| 0 <= k < texts(ids@).len() && texts(ids@)[k] == id@;
            assert(ids@[k]@ == id@);
        }
    }
    None
}

impl CameraSystem {
    /// Creates a new camera system, without cameras or incidents
    pub fn new() -> (system: Self)
        ensures
            system@.cameras.len() == 0,
            system@.active_incidents == Set::<Seq<char>>::empty(),
    {
        let system = CameraSystem { cameras: Vec::new(), active_incidents: Vec::new() };
        assert(texts(system.active_incidents@).to_set() =~= Set::<Seq<char>>::empty());
        system
    }

    /// Adds a camera to the camera system
    pub fn add_camera(&mut self, camera: Camera)
        ensures
            final(self)@.cameras == old(self)@.cameras.push(camera@),
            final(self)@.active_incidents == old(self)@.active_incidents,
    {
        let ghost before = cameras_view(self.cameras@);
        self.cameras.push(camera);
        assert(cameras_view(self.cameras@) =~= before.push(camera@));
    }

    /// Handles a new incident: the cameras near it follow it, and it is active. `near` tells,
    /// camera by camera, whether the camera is near the incident.
    pub fn new_incident(&mut self, incident_id: String, near: &Vec<bool>)
        requires
            near@.len() == old(self)@.cameras.len(),
            forall|i: int| 0 <= i < near@.len() && near@[i] ==> old(self)@.cameras[i].active_incidents < usize::MAX,
        ensures
            final(self)@.cameras == follow_near(old(self)@.cameras, near@),
            final(self)@.active_incidents == old(self)@.active_incidents.insert(incident_id@),
            cameras_wf(old(self)@.cameras) ==> cameras_wf(final(self)@.cameras),
    {
        let ghost start = cameras_view(self.cameras@);
        let ghost incidents = self.active_incidents@;
        let mut i: usize = 0;
        while i < self.cameras.len()
            invariant
                i <= self.cameras.len(),
                self.active_incidents@ == incidents,
                near@.len() == self.cameras.len(),
                start.len() == self.cameras.len(),
                forall|j: int| 0 <= j < near@.len() && near@[j] ==> start[j].active_incidents < usize::MAX,
                forall|j: int|
                    0 <= j < self.cameras.len() ==> #[trigger] cameras_view(self.cameras@)[j] == if j < i && near@[j] {
                        followed(start[j])
                    } else {
                        start[j]
                    },
            decreases self.cameras.len() - i,
        {
            if near[i] {
                let ghost before = cameras_view(self.cameras@);
                let mut camera = self.cameras.remove(i);
                assert(camera@ == before[i as int]);
                camera.follow_incident();
                self.cameras.insert(i, camera);
                assert forall|j: int| 0 <= j < self.cameras.len() implies #[trigger] cameras_view(self.cameras@)[j] == if j
                    < i + 1 && near@[j] {
                    followed(start[j])
                } else {
                    start[j]
                } by {
                    if j != i {
                        assert(cameras_view(self.cameras@)[j] == before[j]);
                    }
                }
            }
            i = i + 1;
        }
        assert(cameras_view(self.cameras@) =~= follow_near(start, near@));
        let ghost ids = texts(self.active_incidents@);
        match position_of(&self.active_incidents, &incident_id) {
            None => {
                self.active_incidents.push(incident_id);
                assert(texts(self.active_incidents@) =~= ids.push(incident_id@));
                proof {
                    ids.lemma_push_to_set_commute(incident_id@);
                }
            },
            Some(p) => {
                assert(ids[p as int] == incident_id@);
                assert(ids.to_set().contains(incident_id@));
                assert(ids.to_set().insert(incident_id@) =~= ids.to_set());
            },
        }
    }

    /// Closes an incident: when it is active, the cameras near it stop following it, and it is
    /// no longer active; an unknown incident changes nothing. `near` tells, camera by camera,
    /// whether the camera is near the incident.
    pub fn close_incident(&mut self, incident_id: &String, near: &Vec<bool>)
        requires
            near@.len() == old(self)@.cameras.len(),
            old(self)@.active_incidents.contains(incident_id@) ==> forall|i: int|
                0 <= i < near@.len() && near@[i] ==> old(self)@.cameras[i].active_incidents > 0,
        ensures
            old(self)@.active_incidents.contains(incident_id@) ==> final(self)@.cameras == unfollow_near(
                old(self)@.cameras,
                near@,
            ) && final(self)@.active_incidents == old(self)@.active_incidents.remove(incident_id@),
            !old(self)@.active_incidents.contains(incident_id@) ==> final(self)@ == old(self)@,
            cameras_wf(old(self)@.cameras) ==> cameras_wf(final(self)@.cameras),
    {
        proof {
            assert(self@.active_incidents.contains(incident_id@) <==> texts(self.active_incidents@).contains(incident_id@));
        }
        match position_of(&self.active_incidents, incident_id) {
            None => {
                return;
            },
            Some(p) => {
                assert(texts(self.active_incidents@)[p as int] == incident_id@);
                assert(self@.active_incidents.contains(incident_id@));
            },
        }
        let ghost start = cameras_view(self.cameras@);
        let ghost incidents = self.active_incidents@;
        let mut i: usize = 0;
        while i < self.cameras.len()
            invariant
                i <= self.cameras.len(),
                self.active_incidents@ == incidents,
                near@.len() == self.cameras.len(),
                start.len() == self.cameras.len(),
                forall|j: int| 0 <= j < near@.len() && near@[j] ==> start[j].active_incidents > 0,
                forall|j: int|
                    0 <= j < self.cameras.len() ==> #[trigger] cameras_view(self.cameras@)[j] == if j < i && near@[j] {
                        unfollowed(start[j])
                    } else {
                        start[j]
                    },
            decreases self.cameras.len() - i,
        {
            if near[i] {
                let ghost before = cameras_view(self.cameras@);
                let mut camera = self.cameras.remove(i);
                assert(camera@ == before[i as int]);
                camera.unfollow_incident();
                self.cameras.insert(i, camera);
                assert forall|j: int| 0 <= j < self.cameras.len() implies #[trigger] cameras_view(self.cameras@)[j] == if j
                    < i + 1 && near@[j] {
                    unfollowed(start[j])
                } else {
                    start[j]
                } by {
                    if j != i {
                        assert(cameras_view(self.cameras@)[j] == before[j]);
                    }
                }
            }
            i = i + 1;
        }
        assert(cameras_view(self.cameras@) =~= unfollow_near(start, near@));
        self.remove_incident(incident_id);
    }

    /// Removes every occurrence of an identifier from the active incidents.
    fn remove_incident(&mut self, incident_id: &String)
        ensures
            final(self)@.cameras == old(self)@.cameras,
            final(self)@.active_incidents == old(self)@.active_incidents.remove(incident_id@),
    {
        let ghost ids = texts(self.active_incidents@);
        let mut kept: Vec<String> = Vec::new();
        let mut i: usize = 0;
        while i < self.active_incidents.len()
            invariant
                i <= self.active_incidents.len(),
                ids == texts(self.active_incidents@),
                texts(kept@).to_set() == ids.take(i as int).to_set().remove(incident_id@),
            decreases self.active_incidents.len() - i,
        {
            let ghost before = texts(kept@);
            assert(ids.take(i + 1) =~= ids.take(i as int).push(ids[i as int]));
            proof {
                ids.take(i as int).lemma_push_to_set_commute(ids[i as int]);
            }
            if self.active_incidents[i] != *incident_id {
                kept.push(self.active_incidents[i].clone());
                assert(texts(kept@) =~= before.push(ids[i as int]));
                proof {
                    before.lemma_push_to_set_commute(ids[i as int]);
                }
                assert(texts(kept@).to_set() =~= ids.take(i + 1).to_set().remove(incident_id@));
            } else {
                assert(texts(kept@).to_set() =~= ids.take(i + 1).to_set().remove(incident_id@));
            }
            i = i + 1;
        }
        assert(ids.take(i as int) =~= ids);
        self.active_incidents = kept;
    }

    /// Copies of the cameras that sleep, in order
    pub fn sleeping_cameras(&self) -> (cameras: Vec<Camera>)
        ensures
            cameras_view(cameras@) == sleeping(self@.cameras),
    {
        let ghost all = cameras_view(self.cameras@);
        let mut cameras: Vec<Camera> = Vec::new();
        let mut i: usize = 0;
        while i < self.cameras.len()
            invariant
                i <= self.cameras.len(),
                all == cameras_view(self.cameras@),
                cameras_view(cameras@) == sleeping(all.take(i as int)),
            decreases self.cameras.len() - i,
        {
            assert(all.take(i + 1).drop_last() =~= all.take(i as int));
            assert(all.take(i + 1).last() == self.cameras@[i as int]@);
            if self.cameras[i].is_sleeping() {
                let ghost before = cameras_view(cameras@);
                cameras.push(self.cameras[i].copy());
                assert(cameras_view(cameras@) =~= before.push(all[i as int]));
            }
            i = i + 1;
        }
        assert(all.take(i as int) =~= all);
        cameras
    }

    /// Adds a seen image to the cameras with the identifier
    pub fn add_seen_image(&mut self, camera_id: u8, image: &str)
        ensures
            final(self)@.cameras == see_image(old(self)@.cameras, camera_id, image@),
            final(self)@.active_incidents == old(self)@.active_incidents,
            cameras_wf(old(self)@.cameras) ==> cameras_wf(final(self)@.cameras),
    {
        let ghost start = cameras_view(self.cameras@);
        let mut i: usize = 0;
        while i < self.cameras.len()
            invariant
                i <= self.cameras.len(),
                start.len() == self.cameras.len(),
                self@.active_incidents == old(self)@.active_incidents,
                start == old(self)@.cameras,
                forall|j: int|
                    0 <= j < self.cameras.len() ==> #[trigger] cameras_view(self.cameras@)[j] == if j < i && start[j].id
                        == camera_id {
                        CameraModel { seen_images: start[j].seen_images.insert(image@), ..start[j] }
                    } else {
                        start[j]
                    },
            decreases self.cameras.len() - i,
        {
            if self.cameras[i].id() == camera_id {
                let ghost before = cameras_view(self.cameras@);
                let mut camera = self.cameras.remove(i);
                assert(camera@ == before[i as int]);
                camera.add_seen_image(image);
                self.cameras.insert(i, camera);
                assert forall|j: int| 0 <= j < self.cameras.len() implies #[trigger] cameras_view(self.cameras@)[j] == if j
                    < i + 1 && start[j].id == camera_id {
                    CameraModel { seen_images: start[j].seen_images.insert(image@), ..start[j] }
                } else {
                    start[j]
                } by {
                    if j != i {
                        assert(cameras_view(self.cameras@)[j] == before[j]);
                    }
                }
            }
            i = i + 1;
        }
        assert(cameras_view(self.cameras@) =~= see_image(start, camera_id, image@));
    }
}

/// Closing an incident undoes opening it: when the cameras near it are the same, every
/// well-formed camera is back as it was.
pub proof fn lemma_close_undoes_new(cameras: Seq<CameraModel>, near: Seq<bool>)
    requires
        near.len() == cameras.len(),
        cameras_wf(cameras),
    ensures
        unfollow_near(follow_near(cameras, near), near) == cameras,
        cameras_wf(follow_near(cameras, near)),
{
    let after = unfollow_near(follow_near(cameras, near), near);
    assert forall|i: int| 0 <= i < cameras.len() implies after[i] == cameras[i] by {
        assert(cameras[i].wf());
    }
    assert(after =~= cameras);
    assert forall|i: int| 0 <= i < cameras.len() implies (#[trigger] follow_near(cameras, near)[i]).wf() by {
        assert(cameras[i].wf());
    }
}

} // verus!
