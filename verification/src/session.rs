//! The server-side session: per-connection state (configuration, the
//! append-only map from client entity ids to engine body handles, and the
//! time accumulator) plus the dispatch that turns each decoded request into
//! engine calls and builds the response, preserving request order.

use vstd::prelude::*;

use std::collections::HashMap;

use crate::engine::{
    col_ball, col_cuboid, col_density, col_friction, col_friction_combine_average,
    col_friction_combine_max, col_friction_combine_min, col_friction_combine_multiply, col_mass,
    col_mass_properties, col_position, col_restitution, col_restitution_combine_average,
    col_restitution_combine_max, col_restitution_combine_min, col_restitution_combine_multiply,
    col_sensor, col_user_data, rb_additional_mass, rb_additional_mass_properties, rb_dynamic,
    rb_fixed, rb_kinematic_position_based, rb_kinematic_velocity_based, rb_position,
    rb_user_data, world_bodies, world_body_handles, world_body_state, world_collider_parent,
    world_colliders, world_insert_body, world_insert_collider_free,
    world_insert_collider_with_parent, world_new, world_step,
};
use crate::math::Isometry;
use crate::serializable::{
    CoefficientCombineRule, SerializableAdditionalMassProperties,
    SerializableColliderMassProperties, SerializableRapierConfiguration,
    SerializableTimestepMode,
};
use crate::shared::{
    lemma_view_request_seq,
    iso_to_transform, view_request_seq, view_response_seq, ColliderHandle, ColliderShape,
    CreatedBody, CreatedCollider, Request, RequestView, Response, ResponseView, RigidBody,
    RigidBodyHandle, SimulatedBody,
};

verus! {

broadcast use vstd::std_specs::hash::group_hash_axioms;

/// The failure a request dispatch can report.
#[derive(Debug, Clone, Copy, PartialEq, Eq, Structural)]
pub enum DispatchError {
    /// A `SimulateStep` arrived before any `UpdateConfig` on this session.
    ConfigNotSet,
}

/// The mathematical value of a session: its configuration, the entity map,
/// the time accumulator in microseconds, and the engine's abstract state.
#[verifier::ext_equal]
pub struct SessionView {
    pub config: Option<SerializableRapierConfiguration>,
    pub entity_to_body: Map<u64, (u32, u32)>,
    pub sim_to_render_us: int,
    pub bodies: Set<(u32, u32)>,
    pub colliders: Map<(u32, u32), Option<(u32, u32)>>,
}

/// The raw parts of a body handle.
pub open spec fn raw_body_handle(h: RigidBodyHandle) -> (u32, u32) {
    (h.index, h.generation)
}

/// The raw parts of a collider handle.
pub open spec fn raw_collider_handle(h: ColliderHandle) -> (u32, u32) {
    (h.index, h.generation)
}

/// The entity map after recording the given `(id, handle)` pairs in order.
pub open spec fn map_after_bodies(
    m: Map<u64, (u32, u32)>,
    hs: Seq<(u64, RigidBodyHandle)>,
) -> Map<u64, (u32, u32)>
    decreases hs.len(),
{
    if hs.len() == 0 {
        m
    } else {
        map_after_bodies(m.insert(hs[0].0, raw_body_handle(hs[0].1)), hs.drop_first())
    }
}

/// The engine's body set after inserting the given handles in order.
pub open spec fn bodies_after(bs: Set<(u32, u32)>, hs: Seq<(u64, RigidBodyHandle)>) -> Set<
    (u32, u32),
>
    decreases hs.len(),
{
    if hs.len() == 0 {
        bs
    } else {
        bodies_after(bs.insert(raw_body_handle(hs[0].1)), hs.drop_first())
    }
}

/// The parent a new collider for entity `id` is attached to: the entity's
/// body when the session knows one, none otherwise.
pub open spec fn parent_for(m: Map<u64, (u32, u32)>, id: u64) -> Option<(u32, u32)> {
    if m.contains_key(id) {
        Some(m[id])
    } else {
        None
    }
}

/// The engine's collider map after inserting a collider for each entry of
/// `cs`, with the handles of `hs`, parented against the entity map `m`.
pub open spec fn colliders_after(
    cm: Map<(u32, u32), Option<(u32, u32)>>,
    m: Map<u64, (u32, u32)>,
    cs: Seq<CreatedCollider>,
    hs: Seq<(u64, ColliderHandle)>,
) -> Map<(u32, u32), Option<(u32, u32)>>
    decreases hs.len(),
{
    if hs.len() == 0 || cs.len() == 0 {
        cm
    } else {
        colliders_after(
            cm.insert(raw_collider_handle(hs[0].1), parent_for(m, cs[0].id)),
            m,
            cs.drop_first(),
            hs.drop_first(),
        )
    }
}

/// Drains a positive time balance in steps of `dt_us` until it is no longer
/// positive: the value the accumulator holds after the stepping loop.
pub open spec fn spec_drain(diff: int, dt_us: u32) -> int
    decreases diff + dt_us,
    when dt_us >= 1
{
    if diff <= 0 {
        diff
    } else {
        spec_drain(diff - dt_us, dt_us)
    }
}

/// Scales a frame delta, in microseconds, by a factor in parts per million.
pub open spec fn spec_scale_ppm(delta_us: u32, ppm: u32) -> int {
    (delta_us * ppm) / 1_000_000
}

/// The accumulator after reconciling one frame delta with the timestep
/// mode. A degenerate step size of zero banks nothing and steps nothing.
pub open spec fn spec_reconcile(
    mode: SerializableTimestepMode,
    diff0: int,
    delta_us: u32,
) -> int {
    match mode {
        SerializableTimestepMode::Fixed { dt_us, substeps } => {
            if dt_us == 0 {
                diff0
            } else {
                spec_drain(diff0 + delta_us, dt_us)
            }
        },
        SerializableTimestepMode::Variable { max_dt_us, time_scale_ppm, substeps } => diff0,
        SerializableTimestepMode::Interpolated { dt_us, time_scale_ppm, substeps } => {
            if dt_us == 0 {
                diff0
            } else {
                spec_drain(diff0 + spec_scale_ppm(delta_us, time_scale_ppm), dt_us)
            }
        },
    }
}

/// What a drained balance looks like: no longer positive, and not below
/// one whole step under zero.
pub proof fn lemma_drain_range(diff: int, dt_us: u32)
    requires
        dt_us >= 1,
    ensures
        spec_drain(diff, dt_us) <= 0,
        spec_drain(diff, dt_us) > 0 - dt_us || spec_drain(diff, dt_us) == diff,
    decreases diff + dt_us,
{
    if diff > 0 {
        lemma_drain_range(diff - dt_us, dt_us);
    }
}

// ---------------------------------------------------------------------------
// The dispatch relation: what one request does to a session
// ---------------------------------------------------------------------------

/// The session state after dispatching one request, as a function of the
/// request, the response the session chose for it, and the state before.
/// Engine-assigned handles and solver outputs appear only through the
/// response, so this is a total function.
pub open spec fn dispatch_next(
    req: RequestView,
    resp: ResponseView,
    s0: SessionView,
) -> SessionView
    decreases req, 0nat,
{
    match req {
        RequestView::BulkRequest(rs) => match resp {
            ResponseView::BulkResponse(ps) => dispatch_seq_next(rs, ps, s0),
            _ => s0,
        },
        RequestView::UpdateConfig(c) => SessionView { config: Some(c), ..s0 },
        RequestView::CreateBodies(bs) => match resp {
            ResponseView::RigidBodyHandles(hs) => SessionView {
                entity_to_body: map_after_bodies(s0.entity_to_body, hs),
                bodies: bodies_after(s0.bodies, hs),
                ..s0
            },
            _ => s0,
        },
        RequestView::CreateColliders(cs) => match resp {
            ResponseView::ColliderHandles(hs) => SessionView {
                colliders: colliders_after(s0.colliders, s0.entity_to_body, cs, hs),
                ..s0
            },
            _ => s0,
        },
        RequestView::SimulateStep(delta_us) => match resp {
            ResponseView::SimulationResult(entries) => match s0.config {
                Some(c) => SessionView {
                    sim_to_render_us: spec_reconcile(
                        c.timestep_mode,
                        s0.sim_to_render_us,
                        delta_us,
                    ),
                    ..s0
                },
                None => s0,
            },
            _ => s0,
        },
    }
}

/// The session state after dispatching a list of requests in order.
pub open spec fn dispatch_seq_next(
    rs: Seq<RequestView>,
    ps: Seq<ResponseView>,
    s0: SessionView,
) -> SessionView
    decreases rs, 1nat,
{
    if rs.len() == 0 || ps.len() == 0 {
        s0
    } else {
        dispatch_seq_next(rs.drop_first(), ps.drop_first(), dispatch_next(rs[0], ps[0], s0))
    }
}

/// Whether a simulation result lists exactly the engine's bodies: a handle
/// is live if and only if some entry carries it.
pub open spec fn entries_cover(
    bodies: Set<(u32, u32)>,
    entries: Seq<(RigidBodyHandle, SimulatedBody)>,
) -> bool {
    forall|h: (u32, u32)|
        #[trigger] bodies.contains(h) <==> (exists|k: int|
            0 <= k < entries.len() && raw_body_handle((#[trigger] entries[k]).0) == h)
}

/// Whether no body handle repeats among the entries.
pub open spec fn entries_distinct(entries: Seq<(RigidBodyHandle, SimulatedBody)>) -> bool {
    forall|k1: int, k2: int|
        0 <= k1 < k2 < entries.len() ==> (#[trigger] entries[k1]).0 != (
        #[trigger] entries[k2]).0
}

/// Whether a response has the shape the protocol owes for a request
/// dispatched in state `s0`: the mirrored variant, one entry per input
/// entry carrying the input's id in order with a fresh, pairwise distinct
/// handle, and for a step the complete, duplicate-free listing of the
/// engine's bodies.
pub open spec fn dispatch_resp_ok(req: RequestView, resp: ResponseView, s0: SessionView) -> bool
    decreases req, 0nat,
{
    match req {
        RequestView::BulkRequest(rs) => match resp {
            ResponseView::BulkResponse(ps) => dispatch_seq_resp_ok(rs, ps, s0),
            _ => false,
        },
        RequestView::UpdateConfig(c) => resp == ResponseView::ConfigUpdated,
        RequestView::CreateBodies(bs) => match resp {
            ResponseView::RigidBodyHandles(hs) => {
                &&& hs.len() == bs.len()
                &&& (forall|k: int| 0 <= k < bs.len() ==> (#[trigger] hs[k]).0 == bs[k].id)
                &&& (forall|k: int|
                    0 <= k < hs.len() ==> !s0.bodies.contains(raw_body_handle(
                        (#[trigger] hs[k]).1,
                    )))
                &&& (forall|k1: int, k2: int|
                    0 <= k1 < k2 < hs.len() ==> raw_body_handle((#[trigger] hs[k1]).1)
                        != raw_body_handle((#[trigger] hs[k2]).1))
            },
            _ => false,
        },
        RequestView::CreateColliders(cs) => match resp {
            ResponseView::ColliderHandles(hs) => {
                &&& hs.len() == cs.len()
                &&& (forall|k: int| 0 <= k < cs.len() ==> (#[trigger] hs[k]).0 == cs[k].id)
                &&& (forall|k: int|
                    0 <= k < hs.len() ==> !s0.colliders.dom().contains(raw_collider_handle(
                        (#[trigger] hs[k]).1,
                    )))
                &&& (forall|k1: int, k2: int|
                    0 <= k1 < k2 < hs.len() ==> raw_collider_handle((#[trigger] hs[k1]).1)
                        != raw_collider_handle((#[trigger] hs[k2]).1))
            },
            _ => false,
        },
        RequestView::SimulateStep(delta_us) => match resp {
            ResponseView::SimulationResult(entries) => {
                &&& s0.config is Some
                &&& entries_cover(s0.bodies, entries)
                &&& entries_distinct(entries)
            },
            _ => false,
        },
    }
}

/// Whether a list of responses answers a list of requests applied strictly
/// in order: equal lengths, each response owed in the state its
/// predecessors left.
pub open spec fn dispatch_seq_resp_ok(
    rs: Seq<RequestView>,
    ps: Seq<ResponseView>,
    s0: SessionView,
) -> bool
    decreases rs, 1nat,
{
    if rs.len() == 0 {
        ps.len() == 0
    } else {
        &&& ps.len() >= 1
        &&& dispatch_resp_ok(rs[0], ps[0], s0)
        &&& dispatch_seq_resp_ok(rs.drop_first(), ps.drop_first(), dispatch_next(rs[0], ps[0], s0))
    }
}

/// Relates a request, the response the session returned for it, and the
/// session's state before and after: the response is owed and the state
/// advanced accordingly.
pub open spec fn dispatch_rel(
    req: RequestView,
    resp: ResponseView,
    s0: SessionView,
    s1: SessionView,
) -> bool {
    dispatch_resp_ok(req, resp, s0) && s1 == dispatch_next(req, resp, s0)
}

/// The list form of `dispatch_rel`.
pub open spec fn dispatch_seq_rel(
    rs: Seq<RequestView>,
    ps: Seq<ResponseView>,
    s0: SessionView,
    s1: SessionView,
) -> bool {
    dispatch_seq_resp_ok(rs, ps, s0) && s1 == dispatch_seq_next(rs, ps, s0)
}

/// Whether a request dispatches without error, given whether the session
/// already holds a configuration. Only a `SimulateStep` before any
/// `UpdateConfig` fails.
pub open spec fn dispatch_ok(req: RequestView, has_config: bool) -> bool
    decreases req,
{
    match req {
        RequestView::BulkRequest(rs) => dispatch_seq_ok(rs, has_config),
        RequestView::SimulateStep(_) => has_config,
        _ => true,
    }
}

/// Whether the session holds a configuration after the request.
pub open spec fn has_config_after(req: RequestView, has_config: bool) -> bool
    decreases req,
{
    match req {
        RequestView::BulkRequest(rs) => has_config_after_seq(rs, has_config),
        RequestView::UpdateConfig(_) => true,
        _ => has_config,
    }
}

/// Whether every request of a list dispatches without error, each seeing
/// the configuration state its predecessors left.
pub open spec fn dispatch_seq_ok(rs: Seq<RequestView>, has_config: bool) -> bool
    decreases rs,
{
    if rs.len() == 0 {
        true
    } else {
        dispatch_ok(rs[0], has_config) && dispatch_seq_ok(
            rs.drop_first(),
            has_config_after(rs[0], has_config),
        )
    }
}

/// Whether the session holds a configuration after a list of requests.
pub open spec fn has_config_after_seq(rs: Seq<RequestView>, has_config: bool) -> bool
    decreases rs,
{
    if rs.len() == 0 {
        has_config
    } else {
        has_config_after_seq(rs.drop_first(), has_config_after(rs[0], has_config))
    }
}

// ---------------------------------------------------------------------------
// Lemmas about the relation
// ---------------------------------------------------------------------------

/// A dispatched request leaves a configuration exactly when
/// `has_config_after` says so.
pub proof fn lemma_next_config(req: RequestView, resp: ResponseView, s0: SessionView)
    requires
        dispatch_resp_ok(req, resp, s0),
    ensures
        (dispatch_next(req, resp, s0).config is Some) == has_config_after(
            req,
            s0.config is Some,
        ),
    decreases req, 0nat,
{
    match req {
        RequestView::BulkRequest(rs) => {
            match resp {
                ResponseView::BulkResponse(ps) => {
                    lemma_seq_next_config(rs, ps, s0);
                },
                _ => {},
            }
        },
        _ => {},
    }
}

/// A dispatched request list leaves a configuration exactly when
/// `has_config_after_seq` says so.
pub proof fn lemma_seq_next_config(rs: Seq<RequestView>, ps: Seq<ResponseView>, s0: SessionView)
    requires
        dispatch_seq_resp_ok(rs, ps, s0),
    ensures
        (dispatch_seq_next(rs, ps, s0).config is Some) == has_config_after_seq(
            rs,
            s0.config is Some,
        ),
    decreases rs, 1nat,
{
    if rs.len() > 0 {
        lemma_next_config(rs[0], ps[0], s0);
        lemma_seq_next_config(rs.drop_first(), ps.drop_first(), dispatch_next(rs[0], ps[0], s0));
    }
}

/// Appending one request and its response extends the state function by one
/// dispatch.
pub proof fn lemma_seq_next_snoc(
    rs: Seq<RequestView>,
    ps: Seq<ResponseView>,
    x: RequestView,
    y: ResponseView,
    s0: SessionView,
)
    requires
        rs.len() == ps.len(),
    ensures
        dispatch_seq_next(rs.push(x), ps.push(y), s0) == dispatch_next(
            x,
            y,
            dispatch_seq_next(rs, ps, s0),
        ),
    decreases rs.len(),
{
    reveal_with_fuel(dispatch_seq_next, 2);
    if rs.len() == 0 {
        assert(rs.push(x)[0] == x);
        assert(ps.push(y)[0] == y);
        assert(rs.push(x).drop_first() =~= Seq::<RequestView>::empty());
        assert(ps.push(y).drop_first() =~= Seq::<ResponseView>::empty());
    } else {
        lemma_seq_next_snoc(
            rs.drop_first(),
            ps.drop_first(),
            x,
            y,
            dispatch_next(rs[0], ps[0], s0),
        );
        assert(rs.push(x)[0] == rs[0]);
        assert(ps.push(y)[0] == ps[0]);
        assert(rs.push(x).drop_first() =~= rs.drop_first().push(x));
        assert(ps.push(y).drop_first() =~= ps.drop_first().push(y));
    }
}

/// An extended list of responses is owed exactly when the prefix is owed
/// and the appended response is owed in the state the prefix leaves.
pub proof fn lemma_seq_resp_ok_snoc(
    rs: Seq<RequestView>,
    ps: Seq<ResponseView>,
    x: RequestView,
    y: ResponseView,
    s0: SessionView,
)
    requires
        rs.len() == ps.len(),
    ensures
        dispatch_seq_resp_ok(rs.push(x), ps.push(y), s0) == (dispatch_seq_resp_ok(rs, ps, s0)
            && dispatch_resp_ok(x, y, dispatch_seq_next(rs, ps, s0))),
    decreases rs.len(),
{
    reveal_with_fuel(dispatch_seq_resp_ok, 2);
    reveal_with_fuel(dispatch_seq_next, 2);
    if rs.len() == 0 {
        assert(rs.push(x)[0] == x);
        assert(ps.push(y)[0] == y);
        assert(rs.push(x).drop_first() =~= Seq::<RequestView>::empty());
        assert(ps.push(y).drop_first() =~= Seq::<ResponseView>::empty());
    } else {
        lemma_seq_resp_ok_snoc(
            rs.drop_first(),
            ps.drop_first(),
            x,
            y,
            dispatch_next(rs[0], ps[0], s0),
        );
        assert(rs.push(x)[0] == rs[0]);
        assert(ps.push(y)[0] == ps[0]);
        assert(rs.push(x).drop_first() =~= rs.drop_first().push(x));
        assert(ps.push(y).drop_first() =~= ps.drop_first().push(y));
    }
}

/// A list dispatches without error exactly when its prefix does and the
/// appended request does in the state the prefix leaves.
pub proof fn lemma_dispatch_seq_ok_snoc(rs: Seq<RequestView>, x: RequestView, hc: bool)
    ensures
        dispatch_seq_ok(rs.push(x), hc) == (dispatch_seq_ok(rs, hc) && dispatch_ok(
            x,
            has_config_after_seq(rs, hc),
        )),
    decreases rs.len(),
{
    reveal_with_fuel(dispatch_seq_ok, 2);
    reveal_with_fuel(has_config_after_seq, 2);
    if rs.len() == 0 {
        assert(rs.push(x)[0] == x);
        assert(rs.push(x).drop_first() =~= Seq::<RequestView>::empty());
    } else {
        lemma_dispatch_seq_ok_snoc(rs.drop_first(), x, has_config_after(rs[0], hc));
        assert(rs.push(x)[0] == rs[0]);
        assert(rs.push(x).drop_first() =~= rs.drop_first().push(x));
    }
}

/// The configuration state after an extended list chains through the
/// appended request.
pub proof fn lemma_config_after_seq_snoc(rs: Seq<RequestView>, x: RequestView, hc: bool)
    ensures
        has_config_after_seq(rs.push(x), hc) == has_config_after(
            x,
            has_config_after_seq(rs, hc),
        ),
    decreases rs.len(),
{
    reveal_with_fuel(has_config_after_seq, 2);
    if rs.len() == 0 {
        assert(rs.push(x)[0] == x);
        assert(rs.push(x).drop_first() =~= Seq::<RequestView>::empty());
    } else {
        lemma_config_after_seq_snoc(rs.drop_first(), x, has_config_after(rs[0], hc));
        assert(rs.push(x)[0] == rs[0]);
        assert(rs.push(x).drop_first() =~= rs.drop_first().push(x));
    }
}

/// In a list that dispatches without error, the request at any position
/// dispatches without error in the configuration state its predecessors
/// leave.
pub proof fn lemma_seq_ok_at(rs: Seq<RequestView>, hc: bool, i: int)
    requires
        0 <= i < rs.len(),
        dispatch_seq_ok(rs, hc),
    ensures
        dispatch_ok(rs[i], has_config_after_seq(rs.take(i), hc)),
    decreases i,
{
    if i == 0 {
        assert(rs.take(0) =~= Seq::<RequestView>::empty());
    } else {
        lemma_seq_ok_at(rs.drop_first(), has_config_after(rs[0], hc), i - 1);
        assert(rs.drop_first()[i - 1] == rs[i]);
        assert(rs.take(i)[0] == rs[0]);
        assert(rs.take(i).drop_first() =~= rs.drop_first().take(i - 1));
    }
}

/// Recording one more `(id, handle)` pair extends the fold by one insert.
pub proof fn lemma_map_after_bodies_snoc(
    m: Map<u64, (u32, u32)>,
    hs: Seq<(u64, RigidBodyHandle)>,
    x: (u64, RigidBodyHandle),
)
    ensures
        map_after_bodies(m, hs.push(x)) == map_after_bodies(m, hs).insert(
            x.0,
            raw_body_handle(x.1),
        ),
    decreases hs.len(),
{
    reveal_with_fuel(map_after_bodies, 2);
    if hs.len() == 0 {
        assert(hs.push(x)[0] == x);
        assert(hs.push(x).drop_first() =~= Seq::<(u64, RigidBodyHandle)>::empty());
    } else {
        lemma_map_after_bodies_snoc(m.insert(hs[0].0, raw_body_handle(hs[0].1)), hs.drop_first(), x);
        assert(hs.push(x)[0] == hs[0]);
        assert(hs.push(x).drop_first() =~= hs.drop_first().push(x));
    }
}

/// Inserting one more handle extends the fold by one insert.
pub proof fn lemma_bodies_after_snoc(
    bs: Set<(u32, u32)>,
    hs: Seq<(u64, RigidBodyHandle)>,
    x: (u64, RigidBodyHandle),
)
    ensures
        bodies_after(bs, hs.push(x)) == bodies_after(bs, hs).insert(raw_body_handle(x.1)),
    decreases hs.len(),
{
    reveal_with_fuel(bodies_after, 2);
    if hs.len() == 0 {
        assert(hs.push(x)[0] == x);
        assert(hs.push(x).drop_first() =~= Seq::<(u64, RigidBodyHandle)>::empty());
    } else {
        lemma_bodies_after_snoc(bs.insert(raw_body_handle(hs[0].1)), hs.drop_first(), x);
        assert(hs.push(x)[0] == hs[0]);
        assert(hs.push(x).drop_first() =~= hs.drop_first().push(x));
    }
}

/// Inserting one more collider extends the fold by one insert.
pub proof fn lemma_colliders_after_snoc(
    cm: Map<(u32, u32), Option<(u32, u32)>>,
    m: Map<u64, (u32, u32)>,
    cs: Seq<CreatedCollider>,
    hs: Seq<(u64, ColliderHandle)>,
    c: CreatedCollider,
    x: (u64, ColliderHandle),
)
    requires
        cs.len() == hs.len(),
    ensures
        colliders_after(cm, m, cs.push(c), hs.push(x)) == colliders_after(cm, m, cs, hs).insert(
            raw_collider_handle(x.1),
            parent_for(m, c.id),
        ),
    decreases hs.len(),
{
    reveal_with_fuel(colliders_after, 2);
    if hs.len() == 0 {
        assert(hs.push(x)[0] == x);
        assert(cs.push(c)[0] == c);
        assert(hs.push(x).drop_first() =~= Seq::<(u64, ColliderHandle)>::empty());
        assert(cs.push(c).drop_first() =~= Seq::<CreatedCollider>::empty());
    } else {
        lemma_colliders_after_snoc(
            cm.insert(raw_collider_handle(hs[0].1), parent_for(m, cs[0].id)),
            m,
            cs.drop_first(),
            hs.drop_first(),
            c,
            x,
        );
        assert(hs.push(x)[0] == hs[0]);
        assert(cs.push(c)[0] == cs[0]);
        assert(hs.push(x).drop_first() =~= hs.drop_first().push(x));
        assert(cs.push(c).drop_first() =~= cs.drop_first().push(c));
    }
}

/// What the body fold holds: everything the set held before, and the raw
/// parts of every inserted handle.
pub proof fn lemma_bodies_after_members(bs: Set<(u32, u32)>, hs: Seq<(u64, RigidBodyHandle)>)
    ensures
        forall|h: (u32, u32)| bs.contains(h) ==> #[trigger] bodies_after(bs, hs).contains(h),
        forall|k: int|
            0 <= k < hs.len() ==> bodies_after(bs, hs).contains(raw_body_handle(
                (#[trigger] hs[k]).1,
            )),
    decreases hs.len(),
{
    if hs.len() > 0 {
        let bs1 = bs.insert(raw_body_handle(hs[0].1));
        lemma_bodies_after_members(bs1, hs.drop_first());
        assert(bodies_after(bs, hs) == bodies_after(bs1, hs.drop_first()));
        assert forall|h: (u32, u32)| bs.contains(h) implies #[trigger] bodies_after(
            bs,
            hs,
        ).contains(h) by {
            assert(bs1.contains(h));
            assert(bodies_after(bs1, hs.drop_first()).contains(h));
        }
        assert forall|k: int|
            0 <= k < hs.len() implies bodies_after(bs, hs).contains(raw_body_handle(
            (#[trigger] hs[k]).1,
        )) by {
            if k == 0 {
                assert(bs1.contains(raw_body_handle(hs[0].1)));
                assert(bodies_after(bs1, hs.drop_first()).contains(raw_body_handle(hs[0].1)));
            } else {
                assert(hs.drop_first()[k - 1] == hs[k]);
                assert(bodies_after(bs1, hs.drop_first()).contains(raw_body_handle(
                    hs.drop_first()[k - 1].1,
                )));
            }
        }
    }
}

/// What the collider fold's domain holds: everything it held before, and
/// the raw parts of every inserted handle.
pub proof fn lemma_colliders_after_members(
    cm: Map<(u32, u32), Option<(u32, u32)>>,
    m: Map<u64, (u32, u32)>,
    cs: Seq<CreatedCollider>,
    hs: Seq<(u64, ColliderHandle)>,
)
    requires
        cs.len() == hs.len(),
    ensures
        forall|h: (u32, u32)|
            cm.dom().contains(h) ==> #[trigger] colliders_after(cm, m, cs, hs).dom().contains(
                h,
            ),
        forall|k: int|
            0 <= k < hs.len() ==> colliders_after(cm, m, cs, hs).dom().contains(
                raw_collider_handle((#[trigger] hs[k]).1),
            ),
    decreases hs.len(),
{
    if hs.len() > 0 {
        let cm1 = cm.insert(raw_collider_handle(hs[0].1), parent_for(m, cs[0].id));
        lemma_colliders_after_members(cm1, m, cs.drop_first(), hs.drop_first());
        assert(colliders_after(cm, m, cs, hs) == colliders_after(
            cm1,
            m,
            cs.drop_first(),
            hs.drop_first(),
        ));
        assert forall|h: (u32, u32)| cm.dom().contains(h) implies #[trigger] colliders_after(
            cm,
            m,
            cs,
            hs,
        ).dom().contains(h) by {
            assert(cm1.dom().contains(h));
            assert(colliders_after(cm1, m, cs.drop_first(), hs.drop_first()).dom().contains(h));
        }
        assert forall|k: int|
            0 <= k < hs.len() implies colliders_after(cm, m, cs, hs).dom().contains(
            raw_collider_handle((#[trigger] hs[k]).1),
        ) by {
            if k == 0 {
                assert(cm1.dom().contains(raw_collider_handle(hs[0].1)));
                assert(colliders_after(cm1, m, cs.drop_first(), hs.drop_first()).dom().contains(
                    raw_collider_handle(hs[0].1),
                ));
            } else {
                assert(hs.drop_first()[k - 1] == hs[k]);
                assert(colliders_after(cm1, m, cs.drop_first(), hs.drop_first()).dom().contains(
                    raw_collider_handle(hs.drop_first()[k - 1].1),
                ));
            }
        }
    }
}

// ---------------------------------------------------------------------------
// The session itself
// ---------------------------------------------------------------------------

/// The well-formedness of a session's value: every body handle the entity
/// map knows is live in the engine, and the accumulator is drained (never
/// positive, never more than one frame below zero).
pub open spec fn view_wf(s: SessionView) -> bool {
    &&& (forall|id: u64|
        #[trigger] s.entity_to_body.contains_key(id) ==> s.bodies.contains(s.entity_to_body[id]))
    &&& 0 - (u32::MAX as int) <= s.sim_to_render_us <= 0
}

/// Per-connection server state: the configuration pushed by the client
/// (absent until the first `UpdateConfig`), the append-only map from client
/// entity ids to engine body handles, the time accumulator, and the engine
/// world itself.
pub struct Session {
    config: Option<SerializableRapierConfiguration>,
    entity_to_body: HashMap<u64, (u32, u32)>,
    sim_to_render_us: i64,
    world: rapier3d::pipeline::PhysicsWorld,
}

impl View for Session {
    type V = SessionView;

    closed spec fn view(&self) -> SessionView {
        SessionView {
            config: self.config,
            entity_to_body: self.entity_to_body@,
            sim_to_render_us: self.sim_to_render_us as int,
            bodies: world_bodies(self.world),
            colliders: world_colliders(self.world),
        }
    }
}

/// Builds one rigid body from its creation record and inserts it into the
/// engine, returning the fresh raw handle.
fn create_one_body(w: &mut rapier3d::pipeline::PhysicsWorld, body: &CreatedBody) -> (h: (
    u32,
    u32,
))
    ensures
        !world_bodies(*old(w)).contains(h),
        world_bodies(*final(w)) == world_bodies(*old(w)).insert(h),
        world_colliders(*final(w)) == world_colliders(*old(w)),
{
    let mut b = match body.body {
        RigidBody::Dynamic => rb_dynamic(),
        RigidBody::Fixed => rb_fixed(),
        RigidBody::KinematicPositionBased => rb_kinematic_position_based(),
        RigidBody::KinematicVelocityBased => rb_kinematic_velocity_based(),
    };
    match &body.transform {
        Some(iso) => {
            b = rb_position(b, iso);
        },
        None => {},
    }
    match &body.additional_mass_properties {
        Some(SerializableAdditionalMassProperties::Mass(m)) => {
            b = rb_additional_mass(b, *m);
        },
        Some(SerializableAdditionalMassProperties::MassProperties(p)) => {
            b = rb_additional_mass_properties(b, p);
        },
        None => {},
    }
    b = rb_user_data(b, body.id);
    world_insert_body(w, b)
}

/// Builds a collider from its creation record: the shape, then each of the
/// optional attributes the record carries. The placement is set by the
/// caller, which decides between attachment and free standing.
fn build_collider(c: &CreatedCollider) -> rapier3d::geometry::ColliderBuilder {
    let mut b = match c.shape {
        ColliderShape::Ball { radius } => col_ball(radius),
        ColliderShape::Cuboid { hx, hy, hz } => col_cuboid(hx, hy, hz),
    };
    match &c.sensor {
        Some(_) => {
            b = col_sensor(b);
        },
        None => {},
    }
    match &c.mass_properties {
        Some(SerializableColliderMassProperties::Density(d)) => {
            b = col_density(b, *d);
        },
        Some(SerializableColliderMassProperties::Mass(m)) => {
            b = col_mass(b, *m);
        },
        Some(SerializableColliderMassProperties::MassProperties(p)) => {
            b = col_mass_properties(b, p);
        },
        None => {},
    }
    match &c.friction {
        Some(f) => {
            b = col_friction(b, f.coefficient);
            b = match f.combine_rule {
                CoefficientCombineRule::Average => col_friction_combine_average(b),
                CoefficientCombineRule::Min => col_friction_combine_min(b),
                CoefficientCombineRule::Multiply => col_friction_combine_multiply(b),
                CoefficientCombineRule::Max => col_friction_combine_max(b),
            };
        },
        None => {},
    }
    match &c.restitution {
        Some(r) => {
            b = col_restitution(b, r.coefficient);
            b = match r.combine_rule {
                CoefficientCombineRule::Average => col_restitution_combine_average(b),
                CoefficientCombineRule::Min => col_restitution_combine_min(b),
                CoefficientCombineRule::Multiply => col_restitution_combine_multiply(b),
                CoefficientCombineRule::Max => col_restitution_combine_max(b),
            };
        },
        None => {},
    }
    col_user_data(b, c.id)
}

impl Session {
    /// A fresh session: no configuration, no known entities, a zero
    /// accumulator, and an empty engine world.
    pub fn new() -> (s: Session)
        ensures
            view_wf(s@),
            s@.config is None,
            s@.sim_to_render_us == 0,
            s@.entity_to_body == Map::<u64, (u32, u32)>::empty(),
            s@.bodies == Set::<(u32, u32)>::empty(),
            s@.colliders == Map::<(u32, u32), Option<(u32, u32)>>::empty(),
    {
        let world = world_new();
        proof {
            assert(world_bodies(world) =~= Set::<(u32, u32)>::empty());
            assert(world_colliders(world).dom() =~= Set::<(u32, u32)>::empty());
            assert(world_colliders(world) =~= Map::<(u32, u32), Option<(u32, u32)>>::empty());
        }
        Session {
            config: None,
            entity_to_body: HashMap::new(),
            sim_to_render_us: 0,
            world,
        }
    }

    /// Creates every body of the list in order, records each entity's
    /// handle, and returns the `(id, handle)` pairs in input order.
    fn do_create_bodies(&mut self, bodies: &Vec<CreatedBody>) -> (hs: Vec<(u64, RigidBodyHandle)>)
        requires
            view_wf(old(self)@),
        ensures
            view_wf(final(self)@),
            hs@.len() == bodies@.len(),
            hs@.len() <= u64::MAX,
            (forall|k: int| 0 <= k < bodies@.len() ==> (#[trigger] hs@[k]).0 == bodies@[k].id),
            (forall|k: int|
                0 <= k < hs@.len() ==> !old(self)@.bodies.contains(raw_body_handle(
                    (#[trigger] hs@[k]).1,
                ))),
            (forall|k1: int, k2: int|
                0 <= k1 < k2 < hs@.len() ==> raw_body_handle((#[trigger] hs@[k1]).1)
                    != raw_body_handle((#[trigger] hs@[k2]).1)),
            final(self)@.config == old(self)@.config,
            final(self)@.sim_to_render_us == old(self)@.sim_to_render_us,
            final(self)@.colliders == old(self)@.colliders,
            final(self)@.entity_to_body == map_after_bodies(old(self)@.entity_to_body, hs@),
            final(self)@.bodies == bodies_after(old(self)@.bodies, hs@),
            (forall|id: u64|
                old(self)@.entity_to_body.contains_key(id)
                    ==> final(self)@.entity_to_body.contains_key(id)),
    {
        let ghost s0 = self@;
        let mut hs: Vec<(u64, RigidBodyHandle)> = Vec::new();
        let mut i: usize = 0;
        proof {
            assert(hs@ =~= Seq::<(u64, RigidBodyHandle)>::empty());
        }
        while i < bodies.len()
            invariant
                i <= bodies@.len(),
                hs@.len() == i,
                forall|k: int| 0 <= k < i ==> (#[trigger] hs@[k]).0 == bodies@[k].id,
                forall|k: int|
                    0 <= k < i ==> !s0.bodies.contains(raw_body_handle((#[trigger] hs@[k]).1)),
                forall|k1: int, k2: int|
                    0 <= k1 < k2 < i ==> raw_body_handle((#[trigger] hs@[k1]).1)
                        != raw_body_handle((#[trigger] hs@[k2]).1),
                view_wf(self@),
                self@.config == s0.config,
                self@.sim_to_render_us == s0.sim_to_render_us,
                self@.colliders == s0.colliders,
                self@.entity_to_body == map_after_bodies(s0.entity_to_body, hs@),
                self@.bodies == bodies_after(s0.bodies, hs@),
                forall|id: u64|
                    s0.entity_to_body.contains_key(id) ==> self@.entity_to_body.contains_key(
                        id,
                    ),
            decreases bodies@.len() - i,
        {
            let ghost hs0 = hs@;
            let ghost m_pre = self@.entity_to_body;
            let ghost b_pre = self@.bodies;
            let body = &bodies[i];
            let raw = create_one_body(&mut self.world, body);
            self.entity_to_body.insert(body.id, raw);
            let handle = RigidBodyHandle { index: raw.0, generation: raw.1 };
            hs.push((body.id, handle));
            proof {
                assert(raw_body_handle(handle) == raw);
                lemma_map_after_bodies_snoc(s0.entity_to_body, hs0, (body.id, handle));
                lemma_bodies_after_snoc(s0.bodies, hs0, (body.id, handle));
                lemma_bodies_after_members(s0.bodies, hs0);
                assert(!bodies_after(s0.bodies, hs0).contains(raw));
                assert(hs@ =~= hs0.push((body.id, handle)));
                assert(self@.entity_to_body =~= map_after_bodies(s0.entity_to_body, hs@));
                assert(self@.bodies =~= bodies_after(s0.bodies, hs@));
            }
            i += 1;
        }
        hs
    }

    /// Creates every collider of the list in order: attached to the
    /// entity's body as a child at the default offset when the session
    /// knows one, free-standing at the record's own placement (or the
    /// identity) otherwise. Returns the `(id, handle)` pairs in input
    /// order.
    fn do_create_colliders(&mut self, colliders: &Vec<CreatedCollider>) -> (hs: Vec<
        (u64, ColliderHandle),
    >)
        requires
            view_wf(old(self)@),
        ensures
            view_wf(final(self)@),
            hs@.len() == colliders@.len(),
            hs@.len() <= u64::MAX,
            (forall|k: int|
                0 <= k < colliders@.len() ==> (#[trigger] hs@[k]).0 == colliders@[k].id),
            (forall|k: int|
                0 <= k < hs@.len() ==> !old(self)@.colliders.dom().contains(
                    raw_collider_handle((#[trigger] hs@[k]).1),
                )),
            (forall|k1: int, k2: int|
                0 <= k1 < k2 < hs@.len() ==> raw_collider_handle((#[trigger] hs@[k1]).1)
                    != raw_collider_handle((#[trigger] hs@[k2]).1)),
            final(self)@.config == old(self)@.config,
            final(self)@.sim_to_render_us == old(self)@.sim_to_render_us,
            final(self)@.entity_to_body == old(self)@.entity_to_body,
            final(self)@.bodies == old(self)@.bodies,
            final(self)@.colliders == colliders_after(
                old(self)@.colliders,
                old(self)@.entity_to_body,
                colliders@,
                hs@,
            ),
    {
        let ghost s0 = self@;
        let mut hs: Vec<(u64, ColliderHandle)> = Vec::new();
        let mut i: usize = 0;
        proof {
            assert(hs@ =~= Seq::<(u64, ColliderHandle)>::empty());
            assert(colliders@.take(0) =~= Seq::<CreatedCollider>::empty());
        }
        while i < colliders.len()
            invariant
                i <= colliders@.len(),
                hs@.len() == i,
                forall|k: int| 0 <= k < i ==> (#[trigger] hs@[k]).0 == colliders@[k].id,
                forall|k: int|
                    0 <= k < i ==> !s0.colliders.dom().contains(raw_collider_handle(
                        (#[trigger] hs@[k]).1,
                    )),
                forall|k1: int, k2: int|
                    0 <= k1 < k2 < i ==> raw_collider_handle((#[trigger] hs@[k1]).1)
                        != raw_collider_handle((#[trigger] hs@[k2]).1),
                view_wf(self@),
                self@.config == s0.config,
                self@.sim_to_render_us == s0.sim_to_render_us,
                self@.entity_to_body == s0.entity_to_body,
                self@.bodies == s0.bodies,
                self@.colliders == colliders_after(
                    s0.colliders,
                    s0.entity_to_body,
                    colliders@.take(i as int),
                    hs@,
                ),
            decreases colliders@.len() - i,
        {
            let ghost hs0 = hs@;
            let c = &colliders[i];
            let b = build_collider(c);
            let parent_opt = match self.entity_to_body.get(&c.id) {
                Some(p) => Some(*p),
                None => None,
            };
            let raw = match parent_opt {
                Some(p) => {
                    let b2 = col_position(b, &Isometry::identity());
                    world_insert_collider_with_parent(&mut self.world, b2, p)
                },
                None => {
                    let b2 = match &c.transform {
                        Some(t) => col_position(b, t),
                        None => col_position(b, &Isometry::identity()),
                    };
                    world_insert_collider_free(&mut self.world, b2)
                },
            };
            let handle = ColliderHandle { index: raw.0, generation: raw.1 };
            hs.push((c.id, handle));
            proof {
                assert(raw_collider_handle(handle) == raw);
                assert(parent_for(s0.entity_to_body, c.id) == parent_opt);
                lemma_colliders_after_members(
                    s0.colliders,
                    s0.entity_to_body,
                    colliders@.take(i as int),
                    hs0,
                );
                assert(!colliders_after(
                    s0.colliders,
                    s0.entity_to_body,
                    colliders@.take(i as int),
                    hs0,
                ).dom().contains(raw));
                lemma_colliders_after_snoc(
                    s0.colliders,
                    s0.entity_to_body,
                    colliders@.take(i as int),
                    hs0,
                    *c,
                    (c.id, handle),
                );
                assert(hs@ =~= hs0.push((c.id, handle)));
                assert(colliders@.take(i as int).push(colliders@[i as int]) =~= colliders@.take(
                    i as int + 1,
                ));
                assert(self@.colliders =~= colliders_after(
                    s0.colliders,
                    s0.entity_to_body,
                    colliders@.take(i as int + 1),
                    hs@,
                ));
            }
            i += 1;
        }
        proof {
            assert(colliders@.take(colliders@.len() as int) =~= colliders@);
        }
        hs
    }
}

impl Session {
    /// Runs the engine `substeps` times with an equal share of the step
    /// size. Only solver state moves; the session's value is unchanged.
    fn run_substeps(&mut self, gravity: &crate::math::Vect, dt_us: u32, substeps: u32)
        ensures
            final(self)@ == old(self)@,
    {
        if substeps == 0 {
            return ;
        }
        let sub_dt: u64 = (dt_us / substeps) as u64;
        let mut k: u32 = 0;
        while k < substeps
            invariant
                self@ == old(self)@,
            decreases substeps - k,
        {
            world_step(&mut self.world, gravity, sub_dt);
            proof {
                assert(self@ =~= old(self)@);
            }
            k += 1;
        }
    }

    /// Advances the simulation by one frame delta under the session's
    /// configuration, banking remainders in the accumulator, and returns
    /// the post-step state of every body the engine holds. Fails exactly
    /// when no configuration was ever set.
    fn do_simulate_step(&mut self, delta_us: u32) -> (r: Result<
        Vec<(RigidBodyHandle, SimulatedBody)>,
        DispatchError,
    >)
        requires
            view_wf(old(self)@),
        ensures
            view_wf(final(self)@),
            final(self)@.config == old(self)@.config,
            final(self)@.entity_to_body == old(self)@.entity_to_body,
            final(self)@.bodies == old(self)@.bodies,
            final(self)@.colliders == old(self)@.colliders,
            (r is Ok) == (old(self)@.config is Some),
            r matches Ok(entries) ==> final(self)@.sim_to_render_us == spec_reconcile(
                old(self)@.config->0.timestep_mode,
                old(self)@.sim_to_render_us,
                delta_us,
            ),
            r matches Ok(entries) ==> entries@.len() <= u64::MAX,
            r matches Ok(entries) ==> entries_cover(old(self)@.bodies, entries@),
            r matches Ok(entries) ==> entries_distinct(entries@),
            r is Err ==> final(self)@ == old(self)@,
    {
        let ghost s0 = self@;
        let cfg = match self.config {
            Some(c) => c,
            None => {
                proof {
                    assert(self@ =~= s0);
                }
                return Err(DispatchError::ConfigNotSet);
            },
        };
        let gravity = cfg.gravity;
        match cfg.timestep_mode {
            SerializableTimestepMode::Fixed { dt_us, substeps } => {
                if dt_us > 0 {
                    let total: i64 = self.sim_to_render_us + delta_us as i64;
                    let mut diff: i64 = total;
                    while diff > 0
                        invariant
                            dt_us >= 1,
                            self@ == s0,
                            total <= u32::MAX as i64,
                            diff <= total,
                            diff >= 0 - (u32::MAX as i64),
                            spec_drain(diff as int, dt_us) == spec_drain(total as int, dt_us),
                        decreases diff + dt_us,
                    {
                        self.run_substeps(&gravity, dt_us, substeps);
                        diff = diff - dt_us as i64;
                    }
                    proof {
                        lemma_drain_range(total as int, dt_us);
                    }
                    self.sim_to_render_us = diff;
                    proof {
                        assert(self@ =~= (SessionView {
                            sim_to_render_us: spec_drain(total as int, dt_us),
                            ..s0
                        }));
                    }
                }
            },
            SerializableTimestepMode::Variable { max_dt_us, time_scale_ppm, substeps } => {
                proof {
                    assert((delta_us as u64) * (time_scale_ppm as u64) <= u64::MAX) by (nonlinear_arith)
                        requires
                            delta_us <= u32::MAX,
                            time_scale_ppm <= u32::MAX,
                    ;
                }
                let scaled: u64 = (delta_us as u64) * (time_scale_ppm as u64) / 1_000_000;
                let dt_eff: u32 = if scaled > max_dt_us as u64 {
                    max_dt_us
                } else {
                    scaled as u32
                };
                if dt_eff > 0 {
                    self.run_substeps(&gravity, dt_eff, substeps);
                }
            },
            SerializableTimestepMode::Interpolated { dt_us, time_scale_ppm, substeps } => {
                if dt_us > 0 {
                    proof {
                        assert((delta_us as u64) * (time_scale_ppm as u64) <= u64::MAX) by (nonlinear_arith)
                            requires
                                delta_us <= u32::MAX,
                                time_scale_ppm <= u32::MAX,
                        ;
                    }
                    let scaled: u64 = (delta_us as u64) * (time_scale_ppm as u64) / 1_000_000;
                    proof {
                        assert(scaled <= u64::MAX / 1_000_000);
                    }
                    let total: i64 = self.sim_to_render_us + scaled as i64;
                    let mut diff: i64 = total;
                    while diff > 0
                        invariant
                            dt_us >= 1,
                            self@ == s0,
                            total < i64::MAX,
                            diff <= total,
                            diff >= 0 - (u32::MAX as i64),
                            spec_drain(diff as int, dt_us) == spec_drain(total as int, dt_us),
                        decreases diff + dt_us,
                    {
                        self.run_substeps(&gravity, dt_us, substeps);
                        diff = diff - dt_us as i64;
                    }
                    proof {
                        lemma_drain_range(total as int, dt_us);
                    }
                    self.sim_to_render_us = diff;
                    proof {
                        assert(spec_scale_ppm(delta_us, time_scale_ppm) == scaled as int);
                        assert(self@ =~= (SessionView {
                            sim_to_render_us: spec_drain(total as int, dt_us),
                            ..s0
                        }));
                    }
                }
            },
        }
        let handles = world_body_handles(&self.world);
        let mut entries: Vec<(RigidBodyHandle, SimulatedBody)> = Vec::new();
        let mut i: usize = 0;
        while i < handles.len()
            invariant
                i <= handles@.len(),
                entries@.len() == i,
                self@.bodies == s0.bodies,
                self@.config == s0.config,
                self@.entity_to_body == s0.entity_to_body,
                self@.colliders == s0.colliders,
                view_wf(self@),
                self@.sim_to_render_us == spec_reconcile(
                    s0.config->0.timestep_mode,
                    s0.sim_to_render_us,
                    delta_us,
                ),
                forall|h: (u32, u32)| #[trigger] handles@.contains(h) <==> s0.bodies.contains(h),
                forall|a: int, b: int| 0 <= a < b < handles@.len() ==> handles@[a] != handles@[b],
                forall|k: int|
                    0 <= k < i ==> raw_body_handle((#[trigger] entries@[k]).0) == handles@[k],
            decreases handles@.len() - i,
        {
            let h = handles[i];
            proof {
                assert(handles@.contains(handles@[i as int]));
            }
            match world_body_state(&self.world, h) {
                Some((iso, linvel, angvel)) => {
                    let t = iso_to_transform(&iso);
                    entries.push(
                        (
                            RigidBodyHandle { index: h.0, generation: h.1 },
                            SimulatedBody {
                                transform: t,
                                velocity: crate::math::Velocity { linvel, angvel },
                            },
                        ),
                    );
                },
                None => {
                    proof {
                        assert(false);
                    }
                },
            }
            i += 1;
        }
        proof {
            assert(entries_cover(s0.bodies, entries@)) by {
                assert forall|h: (u32, u32)|
                    #[trigger] s0.bodies.contains(h) <==> (exists|k: int|
                        0 <= k < entries@.len() && raw_body_handle(
                            (#[trigger] entries@[k]).0,
                        ) == h) by {
                    if s0.bodies.contains(h) {
                        assert(handles@.contains(h));
                        let k = choose|k: int| 0 <= k < handles@.len() && handles@[k] == h;
                        assert(0 <= k < entries@.len() && raw_body_handle(entries@[k].0)
                            == h);
                    }
                    if exists|k: int|
                        0 <= k < entries@.len() && raw_body_handle(
                            (#[trigger] entries@[k]).0,
                        ) == h {
                        let k = choose|k: int|
                            0 <= k < entries@.len() && raw_body_handle(
                                (#[trigger] entries@[k]).0,
                            ) == h;
                        assert(handles@[k] == h);
                        assert(handles@.contains(handles@[k]));
                    }
                }
            }
            assert(entries_distinct(entries@)) by {
                assert forall|k1: int, k2: int| 0 <= k1 < k2 < entries@.len() implies (
                #[trigger] entries@[k1]).0 != (#[trigger] entries@[k2]).0 by {
                    assert(raw_body_handle(entries@[k1].0) == handles@[k1]);
                    assert(raw_body_handle(entries@[k2].0) == handles@[k2]);
                }
            }
        }
        Ok(entries)
    }
}

impl Session {
    /// Dispatches one request: applies it to the session and the engine and
    /// builds the response the protocol owes for it. A `BulkRequest` is
    /// applied strictly in list order, one sub-response per sub-request;
    /// the only failure is a `SimulateStep` on a session that never
    /// received an `UpdateConfig`, and it aborts the rest of the bulk.
    pub fn handle_request(&mut self, req: &Request) -> (r: Result<Response, DispatchError>)
        requires
            view_wf(old(self)@),
        ensures
            view_wf(final(self)@),
            (forall|id: u64|
                old(self)@.entity_to_body.contains_key(id)
                    ==> final(self)@.entity_to_body.contains_key(id)),
            (r is Ok) == dispatch_ok(req@, old(self)@.config is Some),
            r matches Ok(resp) ==> dispatch_rel(req@, resp@, old(self)@, final(self)@),
            r matches Ok(resp) ==> crate::codec_msg::spec_wf_response(resp@),
        decreases req,
    {
        let ghost s0 = self@;
        match req {
            Request::UpdateConfig(c) => {
                self.config = Some(*c);
                proof {
                    assert(self@ =~= (SessionView { config: Some(*c), ..s0 }));
                }
                Ok(Response::ConfigUpdated)
            },
            Request::CreateBodies(v) => {
                let hs = self.do_create_bodies(v);
                let resp = Response::RigidBodyHandles(hs);
                proof {
                    assert(self@ =~= dispatch_next(req@, resp@, s0));
                    assert(usize::MAX <= u64::MAX);
                }
                Ok(resp)
            },
            Request::CreateColliders(v) => {
                let hs = self.do_create_colliders(v);
                let resp = Response::ColliderHandles(hs);
                proof {
                    assert(self@ =~= dispatch_next(req@, resp@, s0));
                    assert(usize::MAX <= u64::MAX);
                }
                Ok(resp)
            },
            Request::SimulateStep(delta_us) => {
                match self.do_simulate_step(*delta_us) {
                    Ok(entries) => {
                        let resp = Response::SimulationResult(entries);
                        proof {
                            assert(self@ =~= dispatch_next(req@, resp@, s0));
                            assert(usize::MAX <= u64::MAX);
                        }
                        Ok(resp)
                    },
                    Err(e) => Err(e),
                }
            },
            Request::BulkRequest(v) => {
                let ghost rsv = view_request_seq(v@);
                let ghost hc0 = s0.config is Some;
                proof {
                    lemma_view_request_seq(v@);
                    assert(rsv.take(0) =~= Seq::<RequestView>::empty());
                    assert(view_response_seq(Seq::<Response>::empty())
                        =~= Seq::<ResponseView>::empty());
                }
                let mut responses: Vec<Response> = Vec::new();
                let mut i: usize = 0;
                while i < v.len()
                    invariant
                        s0 == old(self)@,
                        hc0 == (old(self)@.config is Some),
                        *req is BulkRequest,
                        req->BulkRequest_0 == *v,
                        i <= v@.len(),
                        responses@.len() == i,
                        view_wf(self@),
                        rsv == view_request_seq(v@),
                        rsv.len() == v@.len(),
                        forall|k: int|
                            0 <= k < v@.len() ==> #[trigger] rsv[k] == crate::shared::view_request(
                                v@[k],
                            ),
                        view_response_seq(responses@).len() == i,
                        forall|k: int|
                            0 <= k < i ==> #[trigger] view_response_seq(responses@)[k]
                                == crate::shared::view_response(responses@[k]),
                        dispatch_seq_resp_ok(
                            rsv.take(i as int),
                            view_response_seq(responses@),
                            s0,
                        ),
                        self@ == dispatch_seq_next(
                            rsv.take(i as int),
                            view_response_seq(responses@),
                            s0,
                        ),
                        dispatch_seq_ok(rsv.take(i as int), hc0),
                        has_config_after_seq(rsv.take(i as int), hc0) == (self@.config
                            is Some),
                        forall|id: u64|
                            s0.entity_to_body.contains_key(id)
                                ==> self@.entity_to_body.contains_key(id),
                        forall|k: int|
                            0 <= k < i ==> crate::codec_msg::spec_wf_response(
                                #[trigger] view_response_seq(responses@)[k],
                            ),
                    decreases v@.len() - i,
                {
                    proof {
                        assert(*v == req->BulkRequest_0);
                        assert(decreases_to!(*req => req->BulkRequest_0));
                        assert(decreases_to!(*v => v@));
                        assert(decreases_to!(v@ => v@[i as int]));
                    }
                    let ghost mid0 = self@;
                    let ghost prev = responses@;
                    let sub = &v[i];
                    match self.handle_request(sub) {
                        Ok(resp) => {
                            let ghost respv = resp@;
                            responses.push(resp);
                            proof {
                                crate::shared::lemma_view_response_seq(prev);
                                crate::shared::lemma_view_response_seq(responses@);
                                assert(responses@ =~= prev.push(responses@[i as int]));
                                assert(view_response_seq(responses@) =~= view_response_seq(
                                    prev,
                                ).push(respv));
                                lemma_seq_resp_ok_snoc(
                                    rsv.take(i as int),
                                    view_response_seq(prev),
                                    rsv[i as int],
                                    respv,
                                    s0,
                                );
                                lemma_seq_next_snoc(
                                    rsv.take(i as int),
                                    view_response_seq(prev),
                                    rsv[i as int],
                                    respv,
                                    s0,
                                );
                                lemma_dispatch_seq_ok_snoc(rsv.take(i as int), rsv[i as int], hc0);
                                lemma_config_after_seq_snoc(
                                    rsv.take(i as int),
                                    rsv[i as int],
                                    hc0,
                                );
                                lemma_next_config(rsv[i as int], respv, mid0);
                                assert(rsv.take(i as int).push(rsv[i as int]) =~= rsv.take(
                                    i as int + 1,
                                ));
                            }
                        },
                        Err(e) => {
                            proof {
                                assert forall|id: u64|
                                    s0.entity_to_body.contains_key(id)
                                        implies self@.entity_to_body.contains_key(id) by {
                                    assert(mid0.entity_to_body.contains_key(id));
                                }
                                assert(!dispatch_ok(rsv[i as int], has_config_after_seq(
                                    rsv.take(i as int),
                                    hc0,
                                )));
                                assert(!dispatch_seq_ok(rsv, hc0)) by {
                                    if dispatch_seq_ok(rsv, hc0) {
                                        lemma_seq_ok_at(rsv, hc0, i as int);
                                    }
                                }
                            }
                            return Err(e);
                        },
                    }
                    i += 1;
                }
                let resp = Response::BulkResponse(responses);
                proof {
                    assert(rsv.take(v@.len() as int) =~= rsv);
                    assert(req@ == RequestView::BulkRequest(rsv));
                    assert(resp@ == ResponseView::BulkResponse(view_response_seq(
                        responses@,
                    )));
                    crate::codec_msg::lemma_wf_response_seq_from_elems(view_response_seq(
                        responses@,
                    ));
                    assert(usize::MAX <= u64::MAX);
                }
                Ok(resp)
            },
        }
    }
}

// ---------------------------------------------------------------------------
// Laws of the dispatch
// ---------------------------------------------------------------------------

/// Whether a response is of the kind that answers the request: the mirrored
/// variant, with one entry per input entry carrying the input's id, and for
/// a bulk the same length with each sub-response answering its sub-request
/// in order.
pub open spec fn response_answers(req: RequestView, resp: ResponseView) -> bool
    decreases req,
{
    match req {
        RequestView::BulkRequest(rs) => match resp {
            ResponseView::BulkResponse(ps) => {
                &&& ps.len() == rs.len()
                &&& (forall|k: int|
                    0 <= k < rs.len() ==> response_answers(rs[k], #[trigger] ps[k]))
            },
            _ => false,
        },
        RequestView::UpdateConfig(_) => resp == ResponseView::ConfigUpdated,
        RequestView::CreateBodies(bs) => match resp {
            ResponseView::RigidBodyHandles(hs) => {
                &&& hs.len() == bs.len()
                &&& (forall|k: int| 0 <= k < bs.len() ==> (#[trigger] hs[k]).0 == bs[k].id)
            },
            _ => false,
        },
        RequestView::CreateColliders(cs) => match resp {
            ResponseView::ColliderHandles(hs) => {
                &&& hs.len() == cs.len()
                &&& (forall|k: int| 0 <= k < cs.len() ==> (#[trigger] hs[k]).0 == cs[k].id)
            },
            _ => false,
        },
        RequestView::SimulateStep(_) => resp is SimulationResult,
    }
}

/// Every response the dispatch owes answers its request.
pub proof fn lemma_resp_ok_answers(req: RequestView, resp: ResponseView, s0: SessionView)
    requires
        dispatch_resp_ok(req, resp, s0),
    ensures
        response_answers(req, resp),
    decreases req, 0nat,
{
    match req {
        RequestView::BulkRequest(rs) => {
            match resp {
                ResponseView::BulkResponse(ps) => {
                    lemma_seq_resp_ok_answers(rs, ps, s0);
                },
                _ => {},
            }
        },
        _ => {},
    }
}

/// Every response list the dispatch owes has the length of the request list
/// and answers it position by position.
pub proof fn lemma_seq_resp_ok_answers(
    rs: Seq<RequestView>,
    ps: Seq<ResponseView>,
    s0: SessionView,
)
    requires
        dispatch_seq_resp_ok(rs, ps, s0),
    ensures
        ps.len() == rs.len(),
        forall|k: int| 0 <= k < rs.len() ==> response_answers(rs[k], #[trigger] ps[k]),
    decreases rs, 1nat,
{
    if rs.len() > 0 {
        lemma_resp_ok_answers(rs[0], ps[0], s0);
        lemma_seq_resp_ok_answers(
            rs.drop_first(),
            ps.drop_first(),
            dispatch_next(rs[0], ps[0], s0),
        );
        assert forall|k: int| 0 <= k < rs.len() implies response_answers(
            rs[k],
            #[trigger] ps[k],
        ) by {
            if k > 0 {
                assert(response_answers(rs.drop_first()[k - 1], ps.drop_first()[k - 1]));
                assert(rs.drop_first()[k - 1] == rs[k]);
                assert(ps.drop_first()[k - 1] == ps[k]);
            }
        }
    }
}

/// Bulk ordering: a bulk request of N sub-requests is always answered by a
/// bulk response with exactly N sub-responses, in the same order (the k-th
/// sub-response answers the k-th sub-request), whatever the sub-request
/// kinds.
pub proof fn lemma_bulk_ordering(
    rs: Seq<RequestView>,
    resp: ResponseView,
    s0: SessionView,
    s1: SessionView,
)
    requires
        dispatch_rel(RequestView::BulkRequest(rs), resp, s0, s1),
    ensures
        resp is BulkResponse,
        resp->BulkResponse_0.len() == rs.len(),
        forall|k: int|
            0 <= k < rs.len() ==> response_answers(rs[k], #[trigger] resp->BulkResponse_0[k]),
{
    match resp {
        ResponseView::BulkResponse(ps) => {
            lemma_seq_resp_ok_answers(rs, ps, s0);
        },
        _ => {},
    }
}

/// Causal dependency: creating a body for an entity and then, later in the
/// same bulk batch, a collider for the same entity attaches the collider as
/// a child of exactly the body handle that was reported for the entity.
pub proof fn lemma_collider_attached_to_created_body(
    b: CreatedBody,
    c: CreatedCollider,
    resp: ResponseView,
    s0: SessionView,
    s1: SessionView,
)
    requires
        c.id == b.id,
        dispatch_rel(
            RequestView::BulkRequest(
                seq![
                    RequestView::CreateBodies(seq![b]),
                    RequestView::CreateColliders(seq![c]),
                ],
            ),
            resp,
            s0,
            s1,
        ),
    ensures
        resp is BulkResponse,
        resp->BulkResponse_0.len() == 2,
        resp->BulkResponse_0[0] is RigidBodyHandles,
        resp->BulkResponse_0[1] is ColliderHandles,
        ({
            let hs = resp->BulkResponse_0[0]->RigidBodyHandles_0;
            let chs = resp->BulkResponse_0[1]->ColliderHandles_0;
            &&& hs.len() == 1
            &&& hs[0].0 == b.id
            &&& chs.len() == 1
            &&& chs[0].0 == c.id
            &&& s1.entity_to_body.contains_key(b.id)
            &&& s1.entity_to_body[b.id] == raw_body_handle(hs[0].1)
            &&& s1.colliders.dom().contains(raw_collider_handle(chs[0].1))
            &&& s1.colliders[raw_collider_handle(chs[0].1)] == Some(raw_body_handle(hs[0].1))
        }),
{
    reveal_with_fuel(dispatch_seq_resp_ok, 3);
    reveal_with_fuel(dispatch_seq_next, 3);
    reveal_with_fuel(map_after_bodies, 2);
    reveal_with_fuel(bodies_after, 2);
    reveal_with_fuel(colliders_after, 2);
    let rs = seq![RequestView::CreateBodies(seq![b]), RequestView::CreateColliders(seq![c])];
    match resp {
        ResponseView::BulkResponse(ps) => {
            lemma_seq_resp_ok_answers(rs, ps, s0);
            assert(rs.drop_first() =~= seq![RequestView::CreateColliders(seq![c])]);
            assert(ps.drop_first().drop_first() =~= Seq::<ResponseView>::empty());
            assert(rs.drop_first().drop_first() =~= Seq::<RequestView>::empty());
            let mid = dispatch_next(rs[0], ps[0], s0);
            match ps[0] {
                ResponseView::RigidBodyHandles(hs) => {
                    assert(hs.drop_first() =~= Seq::<(u64, RigidBodyHandle)>::empty());
                    assert(mid.entity_to_body == s0.entity_to_body.insert(
                        b.id,
                        raw_body_handle(hs[0].1),
                    ));
                    match ps[1] {
                        ResponseView::ColliderHandles(chs) => {
                            assert(chs.drop_first() =~= Seq::<(u64, ColliderHandle)>::empty());
                            assert(seq![c].drop_first() =~= Seq::<CreatedCollider>::empty());
                            assert(parent_for(mid.entity_to_body, c.id) == Some(
                                raw_body_handle(hs[0].1),
                            ));
                            assert(rs.drop_first()[0] == rs[1]);
                            assert(ps.drop_first()[0] == ps[1]);
                            assert(dispatch_seq_next(rs, ps, s0) == dispatch_seq_next(
                                rs.drop_first(),
                                ps.drop_first(),
                                mid,
                            ));
                            assert(dispatch_seq_next(rs.drop_first(), ps.drop_first(), mid)
                                == dispatch_seq_next(
                                rs.drop_first().drop_first(),
                                ps.drop_first().drop_first(),
                                dispatch_next(rs[1], ps[1], mid),
                            ));
                            assert(dispatch_seq_next(
                                rs.drop_first().drop_first(),
                                ps.drop_first().drop_first(),
                                dispatch_next(rs[1], ps[1], mid),
                            ) == dispatch_next(rs[1], ps[1], mid));
                            assert(s1 == dispatch_next(rs[1], ps[1], mid));
                        },
                        _ => {},
                    }
                },
                _ => {},
            }
        },
        _ => {},
    }
}

/// Idempotent configuration: sending the same configuration twice returns
/// `ConfigUpdated` both times, and the second update leaves the session
/// exactly as the first left it, so any later step behaves the same.
pub proof fn lemma_update_config_idempotent(
    c: SerializableRapierConfiguration,
    r1: ResponseView,
    r2: ResponseView,
    s0: SessionView,
    s1: SessionView,
    s2: SessionView,
)
    requires
        dispatch_rel(RequestView::UpdateConfig(c), r1, s0, s1),
        dispatch_rel(RequestView::UpdateConfig(c), r2, s1, s2),
    ensures
        r1 == ResponseView::ConfigUpdated,
        r2 == ResponseView::ConfigUpdated,
        s2 == s1,
{
    assert(s2 =~= s1);
}

/// A step before any configuration is a dispatch error: together with the
/// contract of `handle_request`, a `SimulateStep` on a fresh session
/// returns the defined `ConfigNotSet` error instead of a response.
pub proof fn lemma_step_needs_config(delta_us: u32)
    ensures
        !dispatch_ok(RequestView::SimulateStep(delta_us), false),
{
}

impl Session {
    /// The body handle the session has recorded for a client entity, if
    /// any.
    pub fn body_handle_of(&self, id: u64) -> (r: Option<RigidBodyHandle>)
        ensures
            match r {
                Some(h) => self@.entity_to_body.contains_key(id) && raw_body_handle(h)
                    == self@.entity_to_body[id],
                None => !self@.entity_to_body.contains_key(id),
            },
    {
        match self.entity_to_body.get(&id) {
            Some(p) => Some(RigidBodyHandle { index: p.0, generation: p.1 }),
            None => None,
        }
    }

    /// What the engine records for a collider handle: nothing for an
    /// unknown handle, `Some(None)` for a free-standing collider, and
    /// `Some(Some(b))` for one attached as a child of body `b`.
    pub fn collider_parent(&self, h: &ColliderHandle) -> (r: Option<Option<RigidBodyHandle>>)
        ensures
            match r {
                Some(p) => {
                    &&& self@.colliders.dom().contains(raw_collider_handle(*h))
                    &&& (match p {
                        Some(b) => self@.colliders[raw_collider_handle(*h)] == Some(
                            raw_body_handle(b),
                        ),
                        None => self@.colliders[raw_collider_handle(*h)] is None,
                    })
                },
                None => !self@.colliders.dom().contains(raw_collider_handle(*h)),
            },
    {
        match world_collider_parent(&self.world, (h.index, h.generation)) {
            Some(Some(p)) => Some(Some(RigidBodyHandle { index: p.0, generation: p.1 })),
            Some(None) => Some(None),
            None => None,
        }
    }
}

} // verus!
