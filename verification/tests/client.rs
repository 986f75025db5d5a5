use physics_sync::client::{plan_body_writeback, writeback_action, RequestQueue, WritebackAction};
use physics_sync::math::{Rot, Transform, Vect, Velocity};
use physics_sync::shared::{
    iso_to_transform, transform_to_iso, Request, Response, RigidBodyHandle, SimulatedBody,
};

fn vect(x: f32, y: f32, z: f32) -> Vect {
    Vect { x: x.to_bits(), y: y.to_bits(), z: z.to_bits() }
}

fn entry(index: u32, y: f32, vy: f32) -> (RigidBodyHandle, SimulatedBody) {
    (
        RigidBodyHandle { index, generation: 0 },
        SimulatedBody {
            transform: Transform {
                translation: vect(0.0, y, 0.0),
                rotation: Rot { x: 0, y: 0, z: 0, w: 1.0f32.to_bits() },
                scale: vect(1.0, 1.0, 1.0),
            },
            velocity: Velocity { linvel: vect(0.0, vy, 0.0), angvel: vect(0.0, 0.0, 0.0) },
        },
    )
}

#[test]
fn queue_flushes_into_one_bulk_request_in_order() {
    let mut queue = RequestQueue::new();
    queue.enqueue(Request::SimulateStep(1));
    queue.enqueue(Request::SimulateStep(2));
    queue.enqueue(Request::SimulateStep(3));
    let flushed = queue.flush_bulk();
    assert_eq!(
        flushed,
        Request::BulkRequest(vec![
            Request::SimulateStep(1),
            Request::SimulateStep(2),
            Request::SimulateStep(3),
        ])
    );
    assert_eq!(queue.flush_bulk(), Request::BulkRequest(vec![]));
}

#[test]
fn queue_flushes_sequentially_in_order() {
    let mut queue = RequestQueue::new();
    queue.enqueue(Request::SimulateStep(4));
    queue.enqueue(Request::SimulateStep(5));
    let flushed = queue.flush_sequential();
    assert_eq!(flushed, vec![Request::SimulateStep(4), Request::SimulateStep(5)]);
    assert!(queue.flush_sequential().is_empty());
}

#[test]
fn writeback_applies_transform_and_changed_velocity() {
    let result = vec![entry(0, 1.0, 0.0), entry(1, -2.0, -3.0)];
    let handle = RigidBodyHandle { index: 1, generation: 0 };
    let current = Velocity { linvel: vect(0.0, 0.0, 0.0), angvel: vect(0.0, 0.0, 0.0) };
    let plan = plan_body_writeback(&result, &handle, &current).unwrap();
    assert_eq!(f32::from_bits(plan.0.translation.y), -2.0);
    let velocity = plan.1.expect("a changed velocity must be written");
    assert_eq!(f32::from_bits(velocity.linvel.y), -3.0);
}

#[test]
fn writeback_skips_a_numerically_unchanged_velocity() {
    let result = vec![entry(3, 1.0, -3.0)];
    let handle = RigidBodyHandle { index: 3, generation: 0 };
    let current = Velocity { linvel: vect(0.0, -3.0, 0.0), angvel: vect(0.0, 0.0, 0.0) };
    let plan = plan_body_writeback(&result, &handle, &current).unwrap();
    assert_eq!(plan.1, None);
}

#[test]
fn writeback_treats_the_two_zero_signs_as_equal() {
    let result = vec![entry(3, 1.0, -0.0)];
    let handle = RigidBodyHandle { index: 3, generation: 0 };
    let current = Velocity { linvel: vect(0.0, 0.0, 0.0), angvel: vect(0.0, 0.0, 0.0) };
    let plan = plan_body_writeback(&result, &handle, &current).unwrap();
    assert_eq!(plan.1, None, "-0.0 and 0.0 are numerically equal");
}

#[test]
fn writeback_rewrites_a_nan_velocity() {
    let result = vec![entry(3, 1.0, f32::NAN)];
    let handle = RigidBodyHandle { index: 3, generation: 0 };
    let current = Velocity {
        linvel: Vect { x: 0, y: f32::NAN.to_bits(), z: 0 },
        angvel: vect(0.0, 0.0, 0.0),
    };
    let plan = plan_body_writeback(&result, &handle, &current).unwrap();
    assert!(plan.1.is_some(), "NaN never compares equal, so the write happens");
}

#[test]
fn writeback_reports_a_missing_handle() {
    let result = vec![entry(0, 1.0, 0.0)];
    let handle = RigidBodyHandle { index: 9, generation: 0 };
    let current = Velocity { linvel: vect(0.0, 0.0, 0.0), angvel: vect(0.0, 0.0, 0.0) };
    assert_eq!(plan_body_writeback(&result, &handle, &current), None);
}

#[test]
fn request_and_response_names() {
    assert_eq!(Request::BulkRequest(vec![]).name(), "BulkRequest");
    assert_eq!(Request::SimulateStep(1).name(), "SimulateStep");
    assert_eq!(Request::CreateBodies(vec![]).name(), "CreateBodies");
    assert_eq!(Request::CreateColliders(vec![]).name(), "CreateColliders");
    assert_eq!(Response::ConfigUpdated.name(), "ConfigUpdated");
    assert_eq!(Response::BulkResponse(vec![]).name(), "BulkResponse");
}

#[test]
fn transform_to_iso_keeps_translation_and_rotation() {
    let t = Transform {
        translation: vect(1.0, 2.0, 3.0),
        rotation: Rot { x: 0, y: 0, z: 0, w: 1.0f32.to_bits() },
        scale: vect(2.0, 2.0, 2.0),
    };
    let iso = transform_to_iso(&t);
    assert_eq!(iso.translation, t.translation);
    assert_eq!(iso.rotation, t.rotation);
    let back = iso_to_transform(&iso);
    assert_eq!(back.translation, t.translation);
    assert_eq!(back.rotation, t.rotation);
    assert_eq!(f32::from_bits(back.scale.x), 1.0);
}

#[test]
fn writeback_action_follows_the_response_tag() {
    assert_eq!(
        writeback_action(Response::ConfigUpdated),
        WritebackAction::AcknowledgeConfig
    );
    let handles = vec![(7u64, RigidBodyHandle { index: 0, generation: 0 })];
    assert_eq!(
        writeback_action(Response::RigidBodyHandles(handles.clone())),
        WritebackAction::AttachBodyHandles(handles)
    );
    let sim = vec![entry(0, 1.0, -3.0)];
    assert_eq!(
        writeback_action(Response::SimulationResult(sim.clone())),
        WritebackAction::ApplySimulation(sim)
    );
    assert_eq!(
        writeback_action(Response::BulkResponse(vec![])),
        WritebackAction::Unexpected
    );
}
