//! Client-side pieces the frame pipeline uses: the per-frame request
//! aggregator, flushed once per frame either into one bulk request or into
//! a sequential list, and the writeback planning that applies a simulation
//! result to local scene state.

use vstd::prelude::*;

use crate::math::{spec_velocity_eq, velocity_eq, Transform, Velocity};
use crate::shared::{ColliderHandle, Request, Response, RigidBodyHandle, SimulatedBody};

verus! {

/// The ordered queue of requests the frame pipeline's stages accumulate
/// during one frame. The stages run in a fixed order (configuration diff,
/// new bodies, new colliders, step command), so the queue order alone
/// guarantees the server never sees a collider before its body.
pub struct RequestQueue(pub Vec<Request>);

impl RequestQueue {
    /// The empty queue a frame starts with.
    pub fn new() -> (q: RequestQueue)
        ensures
            q.0@ == Seq::<Request>::empty(),
    {
        RequestQueue(Vec::new())
    }

    /// Appends one request behind everything already queued.
    pub fn enqueue(&mut self, req: Request)
        ensures
            final(self).0@ == old(self).0@.push(req),
    {
        self.0.push(req);
    }

    /// Drains the whole queue, in order, into the payload of one bulk
    /// request, leaving the queue empty for the next frame.
    pub fn flush_bulk(&mut self) -> (r: Request)
        ensures
            r == Request::BulkRequest(old(self).0),
            final(self).0@ == Seq::<Request>::empty(),
    {
        let mut drained: Vec<Request> = Vec::new();
        core::mem::swap(&mut drained, &mut self.0);
        proof {
            assert(self.0@ =~= Seq::<Request>::empty());
        }
        Request::BulkRequest(drained)
    }

    /// Drains the whole queue, in order, into a list to be sent as one
    /// round trip each, leaving the queue empty for the next frame.
    pub fn flush_sequential(&mut self) -> (r: Vec<Request>)
        ensures
            r == old(self).0,
            final(self).0@ == Seq::<Request>::empty(),
    {
        let mut drained: Vec<Request> = Vec::new();
        core::mem::swap(&mut drained, &mut self.0);
        proof {
            assert(self.0@ =~= Seq::<Request>::empty());
        }
        drained
    }
}

/// What the writeback does with one response, decided by its tag:
/// acknowledge a configuration update, attach returned handles to their
/// entities, or apply a simulation result. A nested bulk has no writeback
/// of its own and is unexpected here, as the frame pipeline unpacks the
/// outer bulk before dispatching.
#[derive(Debug, PartialEq)]
pub enum WritebackAction {
    AcknowledgeConfig,
    AttachBodyHandles(Vec<(u64, RigidBodyHandle)>),
    AttachColliderHandles(Vec<(u64, ColliderHandle)>),
    ApplySimulation(Vec<(RigidBodyHandle, SimulatedBody)>),
    Unexpected,
}

/// Decides, by the response's tag, which writeback it calls for, handing
/// the payload through untouched.
pub fn writeback_action(resp: Response) -> (r: WritebackAction)
    ensures
        (match resp {
            Response::ConfigUpdated => r == WritebackAction::AcknowledgeConfig,
            Response::RigidBodyHandles(hs) => r == WritebackAction::AttachBodyHandles(hs),
            Response::ColliderHandles(hs) => r == WritebackAction::AttachColliderHandles(hs),
            Response::SimulationResult(entries) => r == WritebackAction::ApplySimulation(
                entries,
            ),
            Response::BulkResponse(_) => r == WritebackAction::Unexpected,
        }),
{
    match resp {
        Response::ConfigUpdated => WritebackAction::AcknowledgeConfig,
        Response::RigidBodyHandles(hs) => WritebackAction::AttachBodyHandles(hs),
        Response::ColliderHandles(hs) => WritebackAction::AttachColliderHandles(hs),
        Response::SimulationResult(entries) => WritebackAction::ApplySimulation(entries),
        Response::BulkResponse(_) => WritebackAction::Unexpected,
    }
}

/// What the writeback applies to one local entity: the new transform, and
/// the new velocity only when it differs numerically from the current one.
/// An unchanged velocity is not rewritten, so no spurious change
/// notification reaches the rendering pipeline.
pub fn plan_body_writeback(
    result: &Vec<(RigidBodyHandle, SimulatedBody)>,
    handle: &RigidBodyHandle,
    current_velocity: &Velocity,
) -> (r: Option<(Transform, Option<Velocity>)>)
    ensures
        match r {
            Some(plan) => exists|k: int|
                {
                    &&& 0 <= k < result@.len()
                    &&& (#[trigger] result@[k]).0 == *handle
                    &&& plan.0 == result@[k].1.transform
                    &&& plan.1 == (if spec_velocity_eq(result@[k].1.velocity, *current_velocity) {
                        None::<Velocity>
                    } else {
                        Some(result@[k].1.velocity)
                    })
                },
            None => forall|k: int| 0 <= k < result@.len() ==> (#[trigger] result@[k]).0 != *handle,
        },
{
    let mut i: usize = 0;
    while i < result.len()
        invariant
            i <= result@.len(),
            forall|k: int| 0 <= k < i ==> (#[trigger] result@[k]).0 != *handle,
        decreases result@.len() - i,
    {
        let entry = &result[i];
        if entry.0.index == handle.index && entry.0.generation == handle.generation {
            let velocity_write = if velocity_eq(&entry.1.velocity, current_velocity) {
                None
            } else {
                Some(entry.1.velocity)
            };
            proof {
                assert(result@[i as int].0 == *handle);
            }
            return Some((entry.1.transform, velocity_write));
        }
        i += 1;
    }
    None
}

} // verus!
