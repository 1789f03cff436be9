//! Lock-on targeting: attaches to the nearest entity under the crosshair ray
//! and lets go on request.
use vstd::prelude::*;
use crate::primitives::Intersection;

verus! {

/// What the lock-on consumer announces.
#[derive(Clone, Copy, Debug, PartialEq, Eq, Structural)]
pub enum LockOnEvent {
    Attached(u64),
    Released,
}

#[derive(Clone, Copy, Debug, PartialEq, Eq, Structural)]
pub enum LockOnState {
    Unlocked,
    Locked(u64),
}

/// The lock-on consumer and its state.
#[derive(Clone, Copy, Debug, PartialEq, Eq, Structural)]
pub struct LockOn {
    pub state: LockOnState,
}

/// The events of one frame: an attach to the nearest hit if one is asked for
/// and there is a hit, then a release if one is asked for.
pub open spec fn lock_on_events(attach: bool, release: bool, hits: Seq<(u64, Intersection)>) -> Seq<LockOnEvent> {
    let attached = if attach && hits.len() > 0 {
        seq![LockOnEvent::Attached(hits[0].0)]
    } else {
        Seq::<LockOnEvent>::empty()
    };
    if release {
        attached.push(LockOnEvent::Released)
    } else {
        attached
    }
}

/// The state after one frame: a release wins; else an attach with a hit
/// locks on the nearest; else the state stays.
pub open spec fn lock_on_next(state: LockOnState, attach: bool, release: bool, hits: Seq<(u64, Intersection)>) -> LockOnState {
    if release {
        LockOnState::Unlocked
    } else if attach && hits.len() > 0 {
        LockOnState::Locked(hits[0].0)
    } else {
        state
    }
}

impl LockOn {
    pub fn new() -> (r: LockOn)
        ensures
            r.state == LockOnState::Unlocked,
    {
        LockOn { state: LockOnState::Unlocked }
    }

    /// One frame of lock-on: `intersections` are the crosshair source's hits,
    /// nearest first.
    pub fn handle_lock_on(
        &mut self,
        attach: bool,
        release: bool,
        intersections: &Vec<(u64, Intersection)>,
    ) -> (r: Vec<LockOnEvent>)
        ensures
            r@ == lock_on_events(attach, release, intersections@),
            final(self).state == lock_on_next(old(self).state, attach, release, intersections@),
    {
        let mut events: Vec<LockOnEvent> = Vec::new();
        if attach && intersections.len() > 0 {
            let target = intersections[0].0;
            events.push(LockOnEvent::Attached(target));
            self.state = LockOnState::Locked(target);
        }
        if release {
            events.push(LockOnEvent::Released);
            self.state = LockOnState::Unlocked;
        }
        proof {
            assert(events@ =~= lock_on_events(attach, release, intersections@));
        }
        events
    }

    /// Lets go of a target that has left the scene.
    pub fn target_gone(&mut self, entity: u64) -> (r: Option<LockOnEvent>)
        ensures
            old(self).state == LockOnState::Locked(entity) ==> r == Some(LockOnEvent::Released)
                && final(self).state == LockOnState::Unlocked,
            old(self).state != LockOnState::Locked(entity) ==> r.is_none() && final(self).state == old(
                self,
            ).state,
    {
        match self.state {
            LockOnState::Locked(e) => {
                if e == entity {
                    self.state = LockOnState::Unlocked;
                    Some(LockOnEvent::Released)
                } else {
                    None
                }
            },
            LockOnState::Unlocked => None,
        }
    }
}

} // verus!
