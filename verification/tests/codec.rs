use physics_sync::codec_msg::{
    decode_request, decode_response, encode_request, encode_response,
};
use physics_sync::math::{Isometry, Rot, Transform, Vect, Velocity};
use physics_sync::serializable::{
    CoefficientCombineRule, SerializableAdditionalMassProperties,
    SerializableColliderMassProperties, SerializableFriction, SerializableMassProperties,
    SerializableRapierConfiguration, SerializableRestitution, SerializableSensor,
    SerializableTimestepMode,
};
use physics_sync::shared::{
    ColliderHandle, ColliderShape, CreatedBody, CreatedCollider, Request, Response, RigidBody,
    RigidBodyHandle, SimulatedBody,
};
use physics_sync::wire::{
    decode_request_payload, decode_response_payload, encode_request_payload,
    encode_response_payload,
};
use physics_sync::ErrorKind;

fn vect(x: f32, y: f32, z: f32) -> Vect {
    Vect { x: x.to_bits(), y: y.to_bits(), z: z.to_bits() }
}

fn identity_iso() -> Isometry {
    Isometry { translation: vect(0.0, 0.0, 0.0), rotation: Rot { x: 0, y: 0, z: 0, w: 1.0f32.to_bits() } }
}

fn sample_config() -> SerializableRapierConfiguration {
    SerializableRapierConfiguration {
        gravity: vect(0.0, -30.0, 0.0),
        physics_pipeline_active: true,
        query_pipeline_active: false,
        timestep_mode: SerializableTimestepMode::Interpolated {
            dt_us: 16_666,
            time_scale_ppm: 1_000_000,
            substeps: 2,
        },
        scaled_shape_subdivision: 10,
        force_update_from_transform_changes: false,
    }
}

fn sample_body(id: u64) -> CreatedBody {
    CreatedBody {
        id,
        body: RigidBody::Dynamic,
        transform: Some(identity_iso()),
        additional_mass_properties: Some(SerializableAdditionalMassProperties::MassProperties(
            SerializableMassProperties {
                local_center_of_mass: vect(0.1, 0.2, 0.3),
                mass: 2.5f32.to_bits(),
                principal_inertia_local_frame: Rot { x: 0, y: 0, z: 0, w: 1.0f32.to_bits() },
                principal_inertia: vect(0.5, 0.5, 0.5),
            },
        )),
    }
}

fn sample_collider(id: u64) -> CreatedCollider {
    CreatedCollider {
        id,
        shape: ColliderShape::Cuboid {
            hx: 1.0f32.to_bits(),
            hy: 2.0f32.to_bits(),
            hz: 3.0f32.to_bits(),
        },
        transform: None,
        sensor: Some(SerializableSensor),
        mass_properties: Some(SerializableColliderMassProperties::Density(0.8f32.to_bits())),
        friction: Some(SerializableFriction {
            coefficient: 0.6f32.to_bits(),
            combine_rule: CoefficientCombineRule::Max,
        }),
        restitution: Some(SerializableRestitution {
            coefficient: 0.7f32.to_bits(),
            combine_rule: CoefficientCombineRule::Min,
        }),
    }
}

#[test]
fn round_trip_simulate_step() {
    let req = Request::SimulateStep(16_666);
    let bytes = encode_request(&req);
    assert_eq!(decode_request(&bytes), Ok(req));
}

#[test]
fn round_trip_update_config_all_modes() {
    let mut config = sample_config();
    for mode in [
        SerializableTimestepMode::Fixed { dt_us: 16_666, substeps: 1 },
        SerializableTimestepMode::Variable {
            max_dt_us: 33_333,
            time_scale_ppm: 500_000,
            substeps: 4,
        },
        SerializableTimestepMode::Interpolated {
            dt_us: 8_333,
            time_scale_ppm: 2_000_000,
            substeps: 1,
        },
    ] {
        config.timestep_mode = mode;
        let req = Request::UpdateConfig(config);
        let bytes = encode_request(&req);
        assert_eq!(decode_request(&bytes), Ok(req));
    }
}

#[test]
fn round_trip_create_bodies_all_kinds() {
    let mut bodies = vec![];
    for (i, kind) in [
        RigidBody::Dynamic,
        RigidBody::Fixed,
        RigidBody::KinematicPositionBased,
        RigidBody::KinematicVelocityBased,
    ]
    .into_iter()
    .enumerate()
    {
        let mut b = sample_body(i as u64);
        b.body = kind;
        if i % 2 == 0 {
            b.transform = None;
            b.additional_mass_properties = Some(SerializableAdditionalMassProperties::Mass(
                1.5f32.to_bits(),
            ));
        }
        bodies.push(b);
    }
    let req = Request::CreateBodies(bodies);
    let bytes = encode_request(&req);
    assert_eq!(decode_request(&bytes), Ok(req));
}

#[test]
fn round_trip_create_colliders() {
    let mut with_ball = sample_collider(9);
    with_ball.shape = ColliderShape::Ball { radius: 0.5f32.to_bits() };
    with_ball.transform = Some(identity_iso());
    with_ball.sensor = None;
    let req = Request::CreateColliders(vec![sample_collider(1), with_ball]);
    let bytes = encode_request(&req);
    assert_eq!(decode_request(&bytes), Ok(req));
}

#[test]
fn round_trip_nested_bulk_request() {
    let inner = Request::BulkRequest(vec![
        Request::SimulateStep(1),
        Request::CreateBodies(vec![sample_body(3)]),
    ]);
    let req = Request::BulkRequest(vec![
        Request::UpdateConfig(sample_config()),
        inner,
        Request::CreateColliders(vec![sample_collider(3)]),
        Request::SimulateStep(100_000),
    ]);
    let bytes = encode_request(&req);
    assert_eq!(decode_request(&bytes), Ok(req));
}

#[test]
fn round_trip_empty_bulk_request() {
    let req = Request::BulkRequest(vec![]);
    let bytes = encode_request(&req);
    assert_eq!(decode_request(&bytes), Ok(req));
}

#[test]
fn round_trip_responses() {
    let body = SimulatedBody {
        transform: Transform {
            translation: vect(1.0, -2.0, 3.0),
            rotation: Rot { x: 0, y: 0, z: 0, w: 1.0f32.to_bits() },
            scale: vect(1.0, 1.0, 1.0),
        },
        velocity: Velocity { linvel: vect(0.0, -3.0, 0.0), angvel: vect(0.0, 0.0, 0.0) },
    };
    let resp = Response::BulkResponse(vec![
        Response::ConfigUpdated,
        Response::RigidBodyHandles(vec![(7, RigidBodyHandle { index: 0, generation: 0 })]),
        Response::ColliderHandles(vec![(7, ColliderHandle { index: 4, generation: 1 })]),
        Response::SimulationResult(vec![(RigidBodyHandle { index: 0, generation: 0 }, body)]),
    ]);
    let bytes = encode_response(&resp);
    assert_eq!(decode_response(&bytes), Ok(resp));
}

#[test]
fn decode_rejects_truncated_payload() {
    let req = Request::UpdateConfig(sample_config());
    let mut bytes = encode_request(&req);
    bytes.pop();
    assert_eq!(decode_request(&bytes), Err(ErrorKind::Serialization));
}

#[test]
fn decode_rejects_trailing_bytes() {
    let req = Request::SimulateStep(5);
    let mut bytes = encode_request(&req);
    bytes.push(0);
    assert_eq!(decode_request(&bytes), Err(ErrorKind::Serialization));
}

#[test]
fn decode_rejects_unknown_tag() {
    assert_eq!(decode_request(&vec![9u8]), Err(ErrorKind::Serialization));
    assert_eq!(decode_response(&vec![200u8]), Err(ErrorKind::Serialization));
}

#[test]
fn decode_rejects_empty_payload() {
    assert_eq!(decode_request(&vec![]), Err(ErrorKind::Serialization));
}

#[test]
fn decode_rejects_bad_bool_byte() {
    let req = Request::UpdateConfig(sample_config());
    let mut bytes = encode_request(&req);
    // The byte after the tag and the gravity vector is
    // `physics_pipeline_active`; 2 is not a valid encoding of a bool.
    bytes[13] = 2;
    assert_eq!(decode_request(&bytes), Err(ErrorKind::Serialization));
}

#[test]
fn payload_round_trip_without_compression() {
    let req = Request::BulkRequest(vec![Request::SimulateStep(7)]);
    let payload = encode_request_payload(&req, false);
    assert_eq!(decode_request_payload(&payload, false), Ok(req));
}

#[test]
fn payload_round_trip_with_compression() {
    let req = Request::BulkRequest(vec![
        Request::UpdateConfig(sample_config()),
        Request::CreateBodies(vec![sample_body(1), sample_body(2)]),
    ]);
    let payload = encode_request_payload(&req, true);
    let plain = encode_request_payload(&req, false);
    assert_ne!(payload, plain);
    assert_eq!(decode_request_payload(&payload, true), Ok(req));
}

#[test]
fn response_payload_round_trip_with_compression() {
    let resp = Response::RigidBodyHandles(vec![
        (1, RigidBodyHandle { index: 0, generation: 0 }),
        (2, RigidBodyHandle { index: 1, generation: 0 }),
    ]);
    let payload = encode_response_payload(&resp, true);
    assert_eq!(decode_response_payload(&payload, true), Ok(resp));
}

#[test]
fn corrupt_compressed_payload_is_a_decompression_error() {
    let garbage: Vec<u8> = vec![1, 2, 3, 4, 5];
    assert_eq!(
        decode_request_payload(&garbage, true),
        Err(ErrorKind::Decompression)
    );
}
