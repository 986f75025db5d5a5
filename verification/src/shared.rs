use vstd::prelude::*;

use crate::math::{Isometry, Transform, Velocity};
use crate::serializable::{
    SerializableAdditionalMassProperties, SerializableColliderMassProperties,
    SerializableFriction, SerializableRapierConfiguration, SerializableRestitution,
    SerializableSensor,
};

verus! {

/// The dynamics kind of a rigid body.
#[derive(Debug, Clone, Copy, PartialEq, Eq, Structural)]
pub enum RigidBody {
    Dynamic,
    Fixed,
    KinematicPositionBased,
    KinematicVelocityBased,
}

/// The geometry of a collider, in physics-engine units (float bits).
///
/// The model is deliberately narrowed to the two shapes the client
/// constructs; a new shape is added here, in the codec and in the engine
/// boundary together.
#[derive(Debug, Clone, Copy, PartialEq, Eq, Structural)]
pub enum ColliderShape {
    /// A sphere of the given radius.
    Ball { radius: u32 },
    /// A box with the given half-extents.
    Cuboid { hx: u32, hy: u32, hz: u32 },
}

/// The server-assigned identifier of a rigid body: the raw parts of the
/// engine's arena index.
#[derive(Debug, Clone, Copy, PartialEq, Eq, Structural, Hash)]
pub struct RigidBodyHandle {
    pub index: u32,
    pub generation: u32,
}

/// The server-assigned identifier of a collider.
#[derive(Debug, Clone, Copy, PartialEq, Eq, Structural, Hash)]
pub struct ColliderHandle {
    pub index: u32,
    pub generation: u32,
}

/// A rigid body the client asks the server to create. `id` is the
/// client-assigned entity identifier, unique for the connection's lifetime.
#[derive(Debug, Clone, Copy, PartialEq, Eq, Structural)]
pub struct CreatedBody {
    pub id: u64,
    pub body: RigidBody,
    pub transform: Option<Isometry>,
    pub additional_mass_properties: Option<SerializableAdditionalMassProperties>,
}

/// A collider the client asks the server to create. If `id` names an entity
/// whose body the server already knows, the collider is attached to that
/// body; otherwise it is inserted free-standing at `transform`.
#[derive(Debug, Clone, Copy, PartialEq, Eq, Structural)]
pub struct CreatedCollider {
    pub id: u64,
    pub shape: ColliderShape,
    pub transform: Option<Isometry>,
    pub sensor: Option<SerializableSensor>,
    pub mass_properties: Option<SerializableColliderMassProperties>,
    pub friction: Option<SerializableFriction>,
    pub restitution: Option<SerializableRestitution>,
}

/// A request from the client to the physics server.
///
/// The sub-requests of a `BulkRequest` are applied strictly in list order,
/// never reordered.
#[derive(Debug, PartialEq)]
pub enum Request {
    BulkRequest(Vec<Request>),
    UpdateConfig(SerializableRapierConfiguration),
    CreateBodies(Vec<CreatedBody>),
    CreateColliders(Vec<CreatedCollider>),
    /// Advance the simulation by the given delta time, in microseconds.
    SimulateStep(u32),
}

/// The post-step state of one body: its render-space transform and velocity.
#[derive(Debug, Clone, Copy, PartialEq, Eq, Structural)]
pub struct SimulatedBody {
    pub transform: Transform,
    pub velocity: Velocity,
}

/// A response from the physics server, mirroring the request kinds.
///
/// A `BulkResponse` has exactly as many entries as the `BulkRequest` it
/// answers, in the same order.
#[derive(Debug, PartialEq)]
pub enum Response {
    BulkResponse(Vec<Response>),
    ConfigUpdated,
    RigidBodyHandles(Vec<(u64, RigidBodyHandle)>),
    ColliderHandles(Vec<(u64, ColliderHandle)>),
    SimulationResult(Vec<(RigidBodyHandle, SimulatedBody)>),
}

impl Request {
    /// The name of this request's kind.
    pub fn name(&self) -> (r: &'static str)
        ensures
            r@ == match self {
                Request::BulkRequest(_) => "BulkRequest"@,
                Request::UpdateConfig(_) => "UpdateConfig"@,
                Request::CreateBodies(_) => "CreateBodies"@,
                Request::CreateColliders(_) => "CreateColliders"@,
                Request::SimulateStep(_) => "SimulateStep"@,
            },
    {
        match self {
            Request::BulkRequest(_) => "BulkRequest",
            Request::UpdateConfig(_) => "UpdateConfig",
            Request::CreateBodies(_) => "CreateBodies",
            Request::CreateColliders(_) => "CreateColliders",
            Request::SimulateStep(_) => "SimulateStep",
        }
    }
}

impl Response {
    /// The name of this response's kind.
    pub fn name(&self) -> (r: &'static str)
        ensures
            r@ == match self {
                Response::BulkResponse(_) => "BulkResponse"@,
                Response::ConfigUpdated => "ConfigUpdated"@,
                Response::RigidBodyHandles(_) => "RigidBodyHandles"@,
                Response::ColliderHandles(_) => "ColliderHandles"@,
                Response::SimulationResult(_) => "SimulationResult"@,
            },
    {
        match self {
            Response::BulkResponse(_) => "BulkResponse",
            Response::ConfigUpdated => "ConfigUpdated",
            Response::RigidBodyHandles(_) => "RigidBodyHandles",
            Response::ColliderHandles(_) => "ColliderHandles",
            Response::SimulationResult(_) => "SimulationResult",
        }
    }
}

/// Repackages a render-space transform as an engine placement, keeping the
/// translation and rotation and dropping the scale. The engine and the scene
/// use the same length unit, so no rescaling is involved.
pub fn transform_to_iso(transform: &Transform) -> (r: Isometry)
    ensures
        r.translation == transform.translation,
        r.rotation == transform.rotation,
{
    Isometry { translation: transform.translation, rotation: transform.rotation }
}

/// Repackages an engine placement as a render-space transform with unit
/// scale: the inverse direction of `transform_to_iso`.
pub fn iso_to_transform(iso: &Isometry) -> (r: Transform)
    ensures
        r.translation == iso.translation,
        r.rotation == iso.rotation,
        r.scale == (crate::math::Vect { x: crate::math::ONE_BITS, y: crate::math::ONE_BITS, z: crate::math::ONE_BITS }),
{
    Transform {
        translation: iso.translation,
        rotation: iso.rotation,
        scale: crate::math::Vect::one(),
    }
}

/// The mathematical value of a `Request`: the same shape with `Seq` in place
/// of `Vec`. Contracts and the codec's laws speak of these values.
pub enum RequestView {
    BulkRequest(Seq<RequestView>),
    UpdateConfig(SerializableRapierConfiguration),
    CreateBodies(Seq<CreatedBody>),
    CreateColliders(Seq<CreatedCollider>),
    SimulateStep(u32),
}

/// The mathematical value of a `Response`.
pub enum ResponseView {
    BulkResponse(Seq<ResponseView>),
    ConfigUpdated,
    RigidBodyHandles(Seq<(u64, RigidBodyHandle)>),
    ColliderHandles(Seq<(u64, ColliderHandle)>),
    SimulationResult(Seq<(RigidBodyHandle, SimulatedBody)>),
}

/// The view of a sequence of requests, element by element.
pub open spec fn view_request_seq(s: Seq<Request>) -> Seq<RequestView>
    decreases s,
{
    if s.len() == 0 {
        Seq::empty()
    } else {
        seq![view_request(s[0])] + view_request_seq(s.drop_first())
    }
}

/// The view of a request.
pub open spec fn view_request(r: Request) -> RequestView
    decreases r,
{
    match r {
        Request::BulkRequest(v) => RequestView::BulkRequest(view_request_seq(v@)),
        Request::UpdateConfig(c) => RequestView::UpdateConfig(c),
        Request::CreateBodies(v) => RequestView::CreateBodies(v@),
        Request::CreateColliders(v) => RequestView::CreateColliders(v@),
        Request::SimulateStep(dt) => RequestView::SimulateStep(dt),
    }
}

/// The view of a sequence of responses, element by element.
pub open spec fn view_response_seq(s: Seq<Response>) -> Seq<ResponseView>
    decreases s,
{
    if s.len() == 0 {
        Seq::empty()
    } else {
        seq![view_response(s[0])] + view_response_seq(s.drop_first())
    }
}

/// The view of a response.
pub open spec fn view_response(r: Response) -> ResponseView
    decreases r,
{
    match r {
        Response::BulkResponse(v) => ResponseView::BulkResponse(view_response_seq(v@)),
        Response::ConfigUpdated => ResponseView::ConfigUpdated,
        Response::RigidBodyHandles(v) => ResponseView::RigidBodyHandles(v@),
        Response::ColliderHandles(v) => ResponseView::ColliderHandles(v@),
        Response::SimulationResult(v) => ResponseView::SimulationResult(v@),
    }
}

impl View for Request {
    type V = RequestView;

    open spec fn view(&self) -> RequestView {
        view_request(*self)
    }
}

impl View for Response {
    type V = ResponseView;

    open spec fn view(&self) -> ResponseView {
        view_response(*self)
    }
}

/// `view_request_seq` maps the view over the elements: same length, and the
/// view of each element in place.
pub proof fn lemma_view_request_seq(s: Seq<Request>)
    ensures
        view_request_seq(s).len() == s.len(),
        forall|k: int|
            0 <= k < s.len() ==> #[trigger] view_request_seq(s)[k] == view_request(s[k]),
    decreases s.len(),
{
    if s.len() > 0 {
        lemma_view_request_seq(s.drop_first());
        assert forall|k: int| 0 <= k < s.len() implies #[trigger] view_request_seq(s)[k]
            == view_request(s[k]) by {
            if k > 0 {
                assert(view_request_seq(s)[k] == view_request_seq(s.drop_first())[k - 1]);
                assert(s.drop_first()[k - 1] == s[k]);
            }
        }
    }
}

/// `view_response_seq` maps the view over the elements.
pub proof fn lemma_view_response_seq(s: Seq<Response>)
    ensures
        view_response_seq(s).len() == s.len(),
        forall|k: int|
            0 <= k < s.len() ==> #[trigger] view_response_seq(s)[k] == view_response(s[k]),
    decreases s.len(),
{
    if s.len() > 0 {
        lemma_view_response_seq(s.drop_first());
        assert forall|k: int| 0 <= k < s.len() implies #[trigger] view_response_seq(s)[k]
            == view_response(s[k]) by {
            if k > 0 {
                assert(view_response_seq(s)[k] == view_response_seq(s.drop_first())[k - 1]);
                assert(s.drop_first()[k - 1] == s[k]);
            }
        }
    }
}

} // verus!
