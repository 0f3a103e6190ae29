use vstd::prelude::*;

verus! {

/// The least battery level at which a drone keeps working.
pub const MINIMUM_BATTERY_LEVEL: usize = 20;

/// The level of a full battery.
pub const MAXIMUM_BATTERY_LEVEL: usize = 100;

/// What a drone spends of its battery in a period of travel.
pub const BATTERY_DISCHARGE_TRAVELLING: usize = 2;

/// What a drone spends of its battery in a period attending an incident.
pub const BATTERY_DISCHARGE_ATTENDING: usize = 2;

/// What a drone spends of its battery in a period doing nothing.
pub const BATTERY_DISCHARGE_IDLE: usize = 1;

/// What a drone recovers of its battery in a period of recharge.
pub const BATTERY_RECHARGE: usize = 5;

/// How many drones attend an incident.
pub const DRONE_COUNT_PER_INCIDENT: usize = 2;

/// Where a drone travels to.
#[derive(Debug, PartialEq, Eq, Clone, Copy, Structural)]
pub enum TravelLocation {
    Anchor,
    Central,
    Incident,
}

/// What a drone is doing.
#[derive(Debug, PartialEq, Eq, Clone, Copy, Structural)]
pub enum DroneStatus {
    Free,
    Travelling(TravelLocation),
    AttendingIncident,
    Interrupted,
    Recharging,
}

/// The state of a drone that its battery and its work depend on: its identifier, what it is
/// doing, its battery level and how many drones it knows to attend its current incident.
/// Where it is, and where it goes, are kept apart.
#[derive(Debug)]
pub struct DroneState {
    pub id: u8,
    pub status: DroneStatus,
    pub battery: usize,
    pub current_incident_count: usize,
}

/// What a period of work spends of the battery; a drone that recharges spends nothing.
pub open spec fn discharge_of(status: DroneStatus) -> nat {
    match status {
        DroneStatus::Travelling(_) => BATTERY_DISCHARGE_TRAVELLING as nat,
        DroneStatus::Free | DroneStatus::Interrupted => BATTERY_DISCHARGE_IDLE as nat,
        DroneStatus::AttendingIncident => BATTERY_DISCHARGE_ATTENDING as nat,
        DroneStatus::Recharging => 0,
    }
}

/// The battery after a period of work: it goes down by what the work spends, and no lower
/// than empty.
pub open spec fn discharged(battery: nat, status: DroneStatus) -> nat {
    if battery < discharge_of(status) {
        0
    } else {
        (battery - discharge_of(status)) as nat
    }
}

/// The battery after a period of recharge: it goes up by the recharge, and no higher than
/// full.
pub open spec fn recharged(battery: nat) -> nat {
    let raised: int = if battery < MAXIMUM_BATTERY_LEVEL { battery + BATTERY_RECHARGE } else { battery as int };
    if raised > MAXIMUM_BATTERY_LEVEL {
        MAXIMUM_BATTERY_LEVEL as nat
    } else {
        raised as nat
    }
}

/// The battery after `n` periods of recharge.
pub open spec fn recharged_times(battery: nat, n: nat) -> nat
    decreases n,
{
    if n == 0 {
        battery
    } else {
        recharged(recharged_times(battery, (n - 1) as nat))
    }
}

impl DroneState {
    /// Creates a new drone: full, travelling to its anchor, knowing of no drone at its incident.
    pub fn new(id: u8) -> (drone: Self)
        ensures
            drone.id == id,
            drone.status == DroneStatus::Travelling(TravelLocation::Anchor),
            drone.battery == MAXIMUM_BATTERY_LEVEL,
            drone.current_incident_count == 0,
    {
        DroneState {
            id,
            status: DroneStatus::Travelling(TravelLocation::Anchor),
            battery: MAXIMUM_BATTERY_LEVEL,
            current_incident_count: 0,
        }
    }

    /// Returns true if the battery is below the minimum level
    pub fn is_below_minimun(&self) -> (below: bool)
        ensures
            below == (self.battery < MINIMUM_BATTERY_LEVEL),
    {
        self.battery < MINIMUM_BATTERY_LEVEL
    }

    /// Sets the status of the drone
    pub fn set_status(&mut self, status: DroneStatus)
        ensures
            *final(self) == (DroneState { status, ..*old(self) }),
    {
        self.status = status;
    }

    /// Discharges the battery of the drone by what its work spends
    pub fn discharge_battery(&mut self)
        ensures
            *final(self) == (DroneState { battery: discharged(old(self).battery as nat, old(self).status) as usize, ..*old(self) }),
    {
        let battery_to_discharge = match self.status {
            DroneStatus::Travelling(_) => BATTERY_DISCHARGE_TRAVELLING,
            DroneStatus::Free | DroneStatus::Interrupted => BATTERY_DISCHARGE_IDLE,
            DroneStatus::AttendingIncident => BATTERY_DISCHARGE_ATTENDING,
            DroneStatus::Recharging => {
                return;
            },
        };

        if self.battery < battery_to_discharge {
            self.battery = 0;
            return;
        }

        self.battery = self.battery - battery_to_discharge;
    }

    /// Recharges the battery of the drone
    pub fn recharge_battery(&mut self)
        ensures
            *final(self) == (DroneState { battery: recharged(old(self).battery as nat) as usize, ..*old(self) }),
    {
        if self.battery < MAXIMUM_BATTERY_LEVEL {
            self.battery = self.battery + BATTERY_RECHARGE;
        }
        if self.battery > MAXIMUM_BATTERY_LEVEL {
            self.battery = MAXIMUM_BATTERY_LEVEL;
        }
    }

    /// Returns true if the battery is fully charged
    pub fn is_fully_charged(&self) -> (full: bool)
        ensures
            full == (self.battery == MAXIMUM_BATTERY_LEVEL),
    {
        self.battery == MAXIMUM_BATTERY_LEVEL
    }

    /// Increments the attending counter of the drone
    pub fn increment_attending_counter(&mut self)
        requires
            old(self).current_incident_count < usize::MAX,
        ensures
            *final(self) == (DroneState { current_incident_count: (old(self).current_incident_count + 1) as usize, ..*old(self) }),
    {
        self.current_incident_count = self.current_incident_count + 1;
    }

    /// Returns true if the drone has been interrupted
    pub fn is_interrupted(&self) -> (interrupted: bool)
        ensures
            interrupted == (self.status == DroneStatus::Interrupted),
    {
        self.status == DroneStatus::Interrupted
    }

    /// Checks if the drone is free to attend an incident: free, or going back to its anchor
    pub fn is_free(&self) -> (free: bool)
        ensures
            free == (self.status == DroneStatus::Free || self.status == DroneStatus::Travelling(TravelLocation::Anchor)),
    {
        self.status == DroneStatus::Free || self.status == DroneStatus::Travelling(TravelLocation::Anchor)
    }

    /// Handles a drone announcing the incident it attends: when it is the incident this drone
    /// works on, one more drone attends it; once enough drones attend it, a drone that is not
    /// attending it yet is interrupted.
    pub fn handle_attending_incident(&mut self, uuid: &String, current_incident: Option<&String>)
        requires
            old(self).current_incident_count < usize::MAX,
        ensures
            match current_incident {
                Some(current) if current@ == uuid@ => {
                    let count = (old(self).current_incident_count + 1) as usize;
                    *final(self) == (DroneState {
                        current_incident_count: count,
                        status: if count == DRONE_COUNT_PER_INCIDENT && old(self).status != DroneStatus::AttendingIncident {
                            DroneStatus::Interrupted
                        } else {
                            old(self).status
                        },
                        ..*old(self)
                    })
                },
                _ => *final(self) == *old(self),
            },
    {
        let incident = match current_incident {
            Some(incident) => incident,
            None => {
                return;
            },
        };
        if *incident != *uuid {
            return;
        }
        self.increment_attending_counter();
        if self.current_incident_count == DRONE_COUNT_PER_INCIDENT && self.status != DroneStatus::AttendingIncident {
            self.set_status(DroneStatus::Interrupted);
        }
    }
}

/// The seconds between two looks at the battery.
pub const CHECK_BATTERY_INTERVAL: u64 = 5;

/// The seconds between two periods of recharge.
pub const BATTERY_RECHARGE_INTERVAL: u64 = 1;

/// Where a drone is in the cycle that recharges its battery.
#[derive(Debug, PartialEq, Eq, Clone, Copy, Structural)]
pub enum RechargePhase {
    /// Looking at the battery from time to time.
    Watching,
    /// Travelling to the central, to recharge there.
    GoingToCentral,
    /// Recharging at the central.
    Recharging,
    /// Travelling back to the anchor, charged.
    GoingToAnchor,
}

/// What happens to the recharge cycle: time passes, or the travel it asked for ends, with the
/// drone at its anchor or not.
#[derive(Debug, PartialEq, Eq, Clone, Copy, Structural)]
pub enum RechargeEvent {
    Tick,
    Arrived { in_anchor: bool },
}

/// What the recharge cycle asks for next.
#[derive(Debug, PartialEq, Eq, Clone, Copy, Structural)]
pub enum RechargeAction {
    /// Wait this many seconds, then tick.
    Sleep(u64),
    /// Travel there, then report the arrival.
    Travel(TravelLocation),
    /// Tick again at once.
    Continue,
}

/// One step of the cycle that recharges a drone: a drone below the minimum that is free goes
/// to the central; there it recharges, one period after the other, until its battery is full;
/// then it goes back to its anchor, and is free again if it got there. What the step gives:
/// the next phase, the drone, and what to do next.
pub open spec fn recharge_transition(phase: RechargePhase, drone: DroneState, event: RechargeEvent) -> (
    RechargePhase,
    DroneState,
    RechargeAction,
) {
    match (phase, event) {
        (RechargePhase::Watching, RechargeEvent::Tick) => if drone.battery < MINIMUM_BATTERY_LEVEL && (drone.status
            == DroneStatus::Free || drone.status == DroneStatus::Travelling(TravelLocation::Anchor)) {
            (RechargePhase::GoingToCentral, drone, RechargeAction::Travel(TravelLocation::Central))
        } else {
            (RechargePhase::Watching, drone, RechargeAction::Sleep(CHECK_BATTERY_INTERVAL))
        },
        (RechargePhase::GoingToCentral, RechargeEvent::Arrived { .. }) => (
            RechargePhase::Recharging,
            DroneState { status: DroneStatus::Recharging, ..drone },
            RechargeAction::Continue,
        ),
        (RechargePhase::Recharging, RechargeEvent::Tick) => {
            let charged = DroneState { battery: recharged(drone.battery as nat) as usize, ..drone };
            if charged.battery == MAXIMUM_BATTERY_LEVEL {
                (RechargePhase::GoingToAnchor, charged, RechargeAction::Travel(TravelLocation::Anchor))
            } else {
                (RechargePhase::Recharging, charged, RechargeAction::Sleep(BATTERY_RECHARGE_INTERVAL))
            }
        },
        (RechargePhase::GoingToAnchor, RechargeEvent::Arrived { in_anchor }) => (
            RechargePhase::Watching,
            if in_anchor { DroneState { status: DroneStatus::Free, ..drone } } else { drone },
            RechargeAction::Continue,
        ),
        _ => (phase, drone, RechargeAction::Continue),
    }
}

/// Recharges the battery of a drone: one step of the cycle that takes a drone low on battery
/// to the central, recharges it there and takes it back to its anchor.
pub fn recharge_step(phase: RechargePhase, drone: &mut DroneState, event: RechargeEvent) -> (next: (
    RechargePhase,
    RechargeAction,
))
    ensures
        (next.0, *final(drone), next.1) == recharge_transition(phase, *old(drone), event),
{
    match (phase, event) {
        (RechargePhase::Watching, RechargeEvent::Tick) => {
            if drone.is_below_minimun() && drone.is_free() {
                (RechargePhase::GoingToCentral, RechargeAction::Travel(TravelLocation::Central))
            } else {
                (RechargePhase::Watching, RechargeAction::Sleep(CHECK_BATTERY_INTERVAL))
            }
        },
        (RechargePhase::GoingToCentral, RechargeEvent::Arrived { .. }) => {
            drone.set_status(DroneStatus::Recharging);
            (RechargePhase::Recharging, RechargeAction::Continue)
        },
        (RechargePhase::Recharging, RechargeEvent::Tick) => {
            drone.recharge_battery();
            if drone.is_fully_charged() {
                (RechargePhase::GoingToAnchor, RechargeAction::Travel(TravelLocation::Anchor))
            } else {
                (RechargePhase::Recharging, RechargeAction::Sleep(BATTERY_RECHARGE_INTERVAL))
            }
        },
        (RechargePhase::GoingToAnchor, RechargeEvent::Arrived { in_anchor }) => {
            if in_anchor {
                drone.set_status(DroneStatus::Free);
            }
            (RechargePhase::Watching, RechargeAction::Continue)
        },
        _ => (phase, RechargeAction::Continue),
    }
}

/// A battery never goes above full, nor below empty, whatever the drone does: neither a period
/// of work nor one of recharge takes it out of its range.
pub proof fn lemma_battery_in_range(battery: nat, status: DroneStatus)
    requires
        battery <= MAXIMUM_BATTERY_LEVEL,
    ensures
        discharged(battery, status) <= battery,
        recharged(battery) <= MAXIMUM_BATTERY_LEVEL,
        battery <= recharged(battery),
{
}

/// Recharging ends: from any level, twenty periods of recharge fill the battery, and a full
/// battery stays full.
pub proof fn lemma_recharge_reaches_full(battery: nat)
    requires
        battery <= MAXIMUM_BATTERY_LEVEL,
    ensures
        recharged_times(battery, 20) == MAXIMUM_BATTERY_LEVEL,
        recharged(MAXIMUM_BATTERY_LEVEL as nat) == MAXIMUM_BATTERY_LEVEL,
{
    lemma_recharged_times_at_least(battery, 20);
}

/// After `n` periods of recharge the battery holds at least `n` recharges more, up to full.
proof fn lemma_recharged_times_at_least(battery: nat, n: nat)
    requires
        battery <= MAXIMUM_BATTERY_LEVEL,
    ensures
        recharged_times(battery, n) <= MAXIMUM_BATTERY_LEVEL,
        recharged_times(battery, n) >= battery + n * BATTERY_RECHARGE || recharged_times(battery, n)
            == MAXIMUM_BATTERY_LEVEL,
    decreases n,
{
    if n > 0 {
        lemma_recharged_times_at_least(battery, (n - 1) as nat);
        assert(n * BATTERY_RECHARGE == (n - 1) * BATTERY_RECHARGE + BATTERY_RECHARGE) by (nonlinear_arith);
    }
}

/// While watching its battery, a drone leaves for the central only when it is low on battery
/// and free (free, or going back to its anchor): a drone that attends an incident, was
/// interrupted, recharges or travels elsewhere keeps watching, however low its battery. A look
/// at the battery changes nothing of the drone, and a drone that leaves travels to the central.
pub proof fn lemma_recharge_leaves_only_when_free_and_low(drone: DroneState)
    ensures
        ({
            let (phase, after, action) = recharge_transition(RechargePhase::Watching, drone, RechargeEvent::Tick);
            &&& after == drone
            &&& (phase == RechargePhase::GoingToCentral) <==> (drone.battery < MINIMUM_BATTERY_LEVEL && (drone.status
                == DroneStatus::Free || drone.status == DroneStatus::Travelling(TravelLocation::Anchor)))
            &&& phase == RechargePhase::GoingToCentral ==> action == RechargeAction::Travel(TravelLocation::Central)
            &&& phase != RechargePhase::GoingToCentral ==> phase == RechargePhase::Watching && action
                == RechargeAction::Sleep(CHECK_BATTERY_INTERVAL)
        }),
        drone.status == DroneStatus::AttendingIncident || drone.status == DroneStatus::Interrupted || drone.status
            == DroneStatus::Recharging ==> recharge_transition(RechargePhase::Watching, drone, RechargeEvent::Tick).0
            == RechargePhase::Watching,
{
}

/// The rest of the recharge cycle: at the central the drone starts recharging; each period of
/// recharge adds five points of battery, up to a full hundred, and the drone heads back to its
/// anchor exactly when the battery is full; back at its anchor it is free again and watches its
/// battery anew. Nothing else of the drone changes.
pub proof fn lemma_recharge_cycle_steps(drone: DroneState, in_anchor: bool)
    ensures
        ({
            let (phase, after, action) = recharge_transition(
                RechargePhase::GoingToCentral,
                drone,
                RechargeEvent::Arrived { in_anchor },
            );
            phase == RechargePhase::Recharging && after == (DroneState { status: DroneStatus::Recharging, ..drone })
                && action == RechargeAction::Continue
        }),
        ({
            let (phase, after, action) = recharge_transition(RechargePhase::Recharging, drone, RechargeEvent::Tick);
            &&& after.battery == (if drone.battery + 5 <= 100 { drone.battery + 5 } else { 100 })
            &&& after == (DroneState { battery: after.battery, ..drone })
            &&& (phase == RechargePhase::GoingToAnchor) <==> after.battery == 100
            &&& phase == RechargePhase::GoingToAnchor ==> action == RechargeAction::Travel(TravelLocation::Anchor)
            &&& phase != RechargePhase::GoingToAnchor ==> phase == RechargePhase::Recharging && action
                == RechargeAction::Sleep(1)
        }),
        ({
            let (phase, after, action) = recharge_transition(
                RechargePhase::GoingToAnchor,
                drone,
                RechargeEvent::Arrived { in_anchor },
            );
            phase == RechargePhase::Watching && action == RechargeAction::Continue && after == (if in_anchor {
                DroneState { status: DroneStatus::Free, ..drone }
            } else {
                drone
            })
        }),
{
}

/// What a period of work takes from the battery: two points while travelling or attending an
/// incident, one while free or interrupted, none while recharging; the battery never goes
/// below empty and never rises.
pub proof fn lemma_discharge_by_status(battery: nat, status: DroneStatus)
    ensures
        discharged(battery, status) <= battery,
        discharged(battery, status) == ({
            let spent: nat = match status {
                DroneStatus::Travelling(_) => 2,
                DroneStatus::AttendingIncident => 2,
                DroneStatus::Free => 1,
                DroneStatus::Interrupted => 1,
                DroneStatus::Recharging => 0,
            };
            if battery >= spent { (battery - spent) as nat } else { 0 }
        }),
{
}

} // verus!
