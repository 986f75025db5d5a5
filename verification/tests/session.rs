use physics_sync::math::{Rot, Vect};
use physics_sync::serializable::{
    SerializableRapierConfiguration, SerializableTimestepMode,
};
use physics_sync::session::{DispatchError, Session};
use physics_sync::shared::{
    ColliderShape, CreatedBody, CreatedCollider, Request, Response, RigidBody,
};

fn vect(x: f32, y: f32, z: f32) -> Vect {
    Vect { x: x.to_bits(), y: y.to_bits(), z: z.to_bits() }
}

fn identity_rot() -> Rot {
    Rot { x: 0, y: 0, z: 0, w: 1.0f32.to_bits() }
}

fn config_with_gravity(y: f32) -> SerializableRapierConfiguration {
    SerializableRapierConfiguration {
        gravity: vect(0.0, y, 0.0),
        physics_pipeline_active: true,
        query_pipeline_active: false,
        timestep_mode: SerializableTimestepMode::Fixed { dt_us: 100_000, substeps: 1 },
        scaled_shape_subdivision: 10,
        force_update_from_transform_changes: false,
    }
}

fn dynamic_body(id: u64) -> CreatedBody {
    CreatedBody {
        id,
        body: RigidBody::Dynamic,
        transform: Some(physics_sync::math::Isometry {
            translation: vect(0.0, 0.0, 0.0),
            rotation: identity_rot(),
        }),
        additional_mass_properties: None,
    }
}

fn ball_collider(id: u64) -> CreatedCollider {
    CreatedCollider {
        id,
        shape: ColliderShape::Ball { radius: 0.5f32.to_bits() },
        transform: None,
        sensor: None,
        mass_properties: None,
        friction: None,
        restitution: None,
    }
}

#[test]
fn bulk_response_matches_length_and_order() {
    let mut session = Session::new();
    let req = Request::BulkRequest(vec![
        Request::UpdateConfig(config_with_gravity(-9.81)),
        Request::CreateBodies(vec![dynamic_body(1), dynamic_body(2)]),
        Request::CreateColliders(vec![ball_collider(1)]),
        Request::SimulateStep(16_666),
    ]);
    let resp = session.handle_request(&req).unwrap();
    match resp {
        Response::BulkResponse(subs) => {
            assert_eq!(subs.len(), 4);
            assert!(matches!(subs[0], Response::ConfigUpdated));
            match &subs[1] {
                Response::RigidBodyHandles(hs) => {
                    assert_eq!(hs.len(), 2);
                    assert_eq!(hs[0].0, 1);
                    assert_eq!(hs[1].0, 2);
                },
                other => panic!("expected body handles, got {:?}", other),
            }
            match &subs[2] {
                Response::ColliderHandles(hs) => {
                    assert_eq!(hs.len(), 1);
                    assert_eq!(hs[0].0, 1);
                },
                other => panic!("expected collider handles, got {:?}", other),
            }
            assert!(matches!(subs[3], Response::SimulationResult(_)));
        },
        other => panic!("expected a bulk response, got {:?}", other),
    }
}

#[test]
fn collider_is_attached_to_the_created_body() {
    let mut session = Session::new();
    let req = Request::BulkRequest(vec![
        Request::CreateBodies(vec![dynamic_body(1)]),
        Request::CreateColliders(vec![ball_collider(1)]),
    ]);
    let resp = session.handle_request(&req).unwrap();
    let (body_handle, collider_handle) = match resp {
        Response::BulkResponse(subs) => {
            let bh = match &subs[0] {
                Response::RigidBodyHandles(hs) => hs[0].1,
                other => panic!("expected body handles, got {:?}", other),
            };
            let ch = match &subs[1] {
                Response::ColliderHandles(hs) => hs[0].1,
                other => panic!("expected collider handles, got {:?}", other),
            };
            (bh, ch)
        },
        other => panic!("expected a bulk response, got {:?}", other),
    };
    assert_eq!(session.body_handle_of(1), Some(body_handle));
    assert_eq!(session.collider_parent(&collider_handle), Some(Some(body_handle)));
}

#[test]
fn collider_without_a_body_stands_free() {
    let mut session = Session::new();
    let resp = session
        .handle_request(&Request::CreateColliders(vec![ball_collider(42)]))
        .unwrap();
    let ch = match resp {
        Response::ColliderHandles(hs) => hs[0].1,
        other => panic!("expected collider handles, got {:?}", other),
    };
    assert_eq!(session.body_handle_of(42), None);
    assert_eq!(session.collider_parent(&ch), Some(None));
}

#[test]
fn update_config_is_idempotent() {
    let mut once = Session::new();
    let mut twice = Session::new();
    let config = config_with_gravity(-30.0);

    let r = once.handle_request(&Request::UpdateConfig(config)).unwrap();
    assert!(matches!(r, Response::ConfigUpdated));

    let r1 = twice.handle_request(&Request::UpdateConfig(config)).unwrap();
    let r2 = twice.handle_request(&Request::UpdateConfig(config)).unwrap();
    assert!(matches!(r1, Response::ConfigUpdated));
    assert!(matches!(r2, Response::ConfigUpdated));

    // With no bodies in either world, the subsequent step behaves the same.
    let step_once = once.handle_request(&Request::SimulateStep(16_666)).unwrap();
    let step_twice = twice.handle_request(&Request::SimulateStep(16_666)).unwrap();
    assert_eq!(step_once, step_twice);
    assert!(matches!(step_once, Response::SimulationResult(_)));
}

#[test]
fn simulate_step_before_config_is_a_defined_error() {
    let mut session = Session::new();
    let r = session.handle_request(&Request::SimulateStep(16_666));
    assert_eq!(r, Err(DispatchError::ConfigNotSet));
}

#[test]
fn simulate_step_inside_a_bulk_before_config_aborts_the_bulk() {
    let mut session = Session::new();
    let req = Request::BulkRequest(vec![
        Request::CreateBodies(vec![dynamic_body(5)]),
        Request::SimulateStep(16_666),
    ]);
    assert_eq!(session.handle_request(&req), Err(DispatchError::ConfigNotSet));
    // A config inside the same bulk, ahead of the step, makes it succeed.
    let mut session = Session::new();
    let req = Request::BulkRequest(vec![
        Request::UpdateConfig(config_with_gravity(-9.81)),
        Request::SimulateStep(16_666),
    ]);
    assert!(session.handle_request(&req).is_ok());
}

#[test]
fn dynamic_body_falls_under_gravity() {
    let mut session = Session::new();
    let resp = session
        .handle_request(&Request::CreateBodies(vec![dynamic_body(7)]))
        .unwrap();
    let handle = match resp {
        Response::RigidBodyHandles(hs) => {
            assert_eq!(hs.len(), 1);
            assert_eq!(hs[0].0, 7);
            hs[0].1
        },
        other => panic!("expected body handles, got {:?}", other),
    };
    // The engine only integrates bodies that carry at least one collider;
    // a single ball far from anything else still falls freely.
    session
        .handle_request(&Request::CreateColliders(vec![ball_collider(7)]))
        .unwrap();

    let r = session
        .handle_request(&Request::UpdateConfig(config_with_gravity(-30.0)))
        .unwrap();
    assert!(matches!(r, Response::ConfigUpdated));

    let resp = session
        .handle_request(&Request::SimulateStep(100_000))
        .unwrap();
    match resp {
        Response::SimulationResult(entries) => {
            let entry = entries
                .iter()
                .find(|(h, _)| *h == handle)
                .expect("the created body must appear in the result");
            let y = f32::from_bits(entry.1.transform.translation.y);
            let vy = f32::from_bits(entry.1.velocity.linvel.y);
            assert!(y < 0.0, "free fall must move the body down, got y = {}", y);
            assert!(vy < 0.0, "free fall must give downward velocity, got vy = {}", vy);
        },
        other => panic!("expected a simulation result, got {:?}", other),
    }
}
