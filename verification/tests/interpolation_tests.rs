use ecoord::interpolation::interpolate_samples;
use ecoord::{
    ExtrapolationMethod, InterpolationMethod, Quat, Time, TimedTransform, Transform,
    TransformEval, Vec3,
};
use nalgebra::{UnitQuaternion, Vector3};

fn time(sec: i64, nanosec: u32) -> Time {
    Time::new(sec, nanosec).unwrap()
}

fn vec3(x: f64, y: f64, z: f64) -> Vec3 {
    Vec3::new(x.to_bits(), y.to_bits(), z.to_bits())
}

fn quat_from_euler(roll: f64, pitch: f64, yaw: f64) -> Quat {
    let q = UnitQuaternion::from_euler_angles(roll, pitch, yaw);
    Quat::new(q.i.to_bits(), q.j.to_bits(), q.k.to_bits(), q.w.to_bits())
}

fn translation_of(t: &Transform) -> Vector3<f64> {
    Vector3::new(
        f64::from_bits(t.translation.x),
        f64::from_bits(t.translation.y),
        f64::from_bits(t.translation.z),
    )
}

fn rotation_of(t: &Transform) -> UnitQuaternion<f64> {
    UnitQuaternion::new_unchecked(nalgebra::Quaternion::new(
        f64::from_bits(t.rotation.w),
        f64::from_bits(t.rotation.x),
        f64::from_bits(t.rotation.y),
        f64::from_bits(t.rotation.z),
    ))
}

/// Executes an evaluation: the blend weight is applied verbatim, translation
/// linearly and rotation by spherical linear interpolation.
fn execute(eval: &TransformEval) -> (Vector3<f64>, UnitQuaternion<f64>) {
    match eval {
        TransformEval::Exact(t) => (translation_of(t), rotation_of(t)),
        TransformEval::Blend { first, second, num, den } => {
            let alpha = (*num as f64) / (*den as f64);
            let t1 = translation_of(first);
            let t2 = translation_of(second);
            let translation = t1 + alpha * (t2 - t1);
            let rotation = rotation_of(first).slerp(&rotation_of(second), alpha);
            (translation, rotation)
        },
    }
}

fn sample(sec: i64, nanosec: u32, t: Vec3, q: Quat) -> TimedTransform {
    TimedTransform::new(time(sec, nanosec), Transform::new(t, q))
}

#[test]
fn transforms_interpolation_test_basic_interpolation() {
    let transforms = vec![
        sample(1, 1000, vec3(0.0, 0.0, 0.0), quat_from_euler(std::f64::consts::FRAC_PI_4, 0.0, 0.0)),
        sample(4, 4000, vec3(3.0, 6.0, -9.0), quat_from_euler(std::f64::consts::PI, 0.0, 0.0)),
    ];
    let timestamp = time(2, 2000);
    let result = interpolate_samples(
        &transforms,
        InterpolationMethod::Linear,
        ExtrapolationMethod::Constant,
        &timestamp,
    );

    let (translation, rotation) = execute(&result);
    assert!((translation - Vector3::new(1.0, 2.0, -3.0)).norm() < 1e-9);
    let (roll, pitch, yaw) = rotation.euler_angles();
    assert!((roll - std::f64::consts::FRAC_PI_2).abs() < 1e-9);
    assert!(pitch.abs() < 1e-9);
    assert!(yaw.abs() < 1e-9);
}

#[test]
fn test_linear_extrapolation_after() {
    let transforms = vec![
        sample(1, 0, vec3(1.0, 2.0, 3.0), quat_from_euler(0.0, 0.0, 0.0)),
        sample(2, 0, vec3(2.0, 3.0, 4.0), quat_from_euler(std::f64::consts::FRAC_PI_2, 0.0, 0.0)),
    ];
    let timestamp = time(3, 0);
    let result = interpolate_samples(
        &transforms,
        InterpolationMethod::Linear,
        ExtrapolationMethod::Linear,
        &timestamp,
    );

    match &result {
        TransformEval::Blend { num, den, .. } => {
            assert_eq!(*num, 2_000_000_000);
            assert_eq!(*den, 1_000_000_000);
        },
        TransformEval::Exact(_) => panic!("expected a blend"),
    }
    let (translation, rotation) = execute(&result);
    assert!((translation - Vector3::new(3.0, 4.0, 5.0)).norm() < 1e-9);
    assert!((rotation.euler_angles().0 - std::f64::consts::PI).abs() < 1e-6);
}

#[test]
fn test_linear_extrapolation_before() {
    let transforms = vec![
        sample(1, 0, vec3(1.0, 2.0, 3.0), quat_from_euler(0.0, 0.0, 0.0)),
        sample(2, 0, vec3(2.0, 3.0, 4.0), quat_from_euler(std::f64::consts::FRAC_PI_2, 0.0, 0.0)),
    ];
    let timestamp = time(0, 0);
    let result = interpolate_samples(
        &transforms,
        InterpolationMethod::Linear,
        ExtrapolationMethod::Linear,
        &timestamp,
    );

    let (translation, rotation) = execute(&result);
    assert!((translation - Vector3::new(0.0, 1.0, 2.0)).norm() < 1e-9);
    assert!((rotation.euler_angles().0 + std::f64::consts::FRAC_PI_2).abs() < 1e-6);
}

#[test]
fn transform_list_utils_test_basic_interpolation() {
    let transforms = vec![
        sample(1, 1000, vec3(0.0, 0.0, 0.0), quat_from_euler(std::f64::consts::FRAC_PI_4, 0.0, 0.0)),
        sample(1, 4000, vec3(3.0, 6.0, -9.0), quat_from_euler(std::f64::consts::PI, 0.0, 0.0)),
    ];
    let timestamp = time(1, 2000);
    let result = interpolate_samples(
        &transforms,
        InterpolationMethod::Step,
        ExtrapolationMethod::Constant,
        &timestamp,
    );

    let (translation, _) = execute(&result);
    assert_eq!(translation, Vector3::new(0.0, 0.0, 0.0));
}

#[test]
fn test_interpolation_boundaries_exact_at_samples() {
    let transforms = vec![
        sample(1, 0, vec3(1.0, 0.0, 0.0), quat_from_euler(0.1, 0.0, 0.0)),
        sample(2, 0, vec3(2.0, 0.0, 0.0), quat_from_euler(0.2, 0.0, 0.0)),
        sample(3, 0, vec3(3.0, 0.0, 0.0), quat_from_euler(0.3, 0.0, 0.0)),
    ];
    for (i, s) in transforms.iter().enumerate() {
        for interpolation in [InterpolationMethod::Step, InterpolationMethod::Linear] {
            let result = interpolate_samples(
                &transforms,
                interpolation,
                ExtrapolationMethod::Constant,
                &time(1 + i as i64, 0),
            );
            assert_eq!(result, TransformEval::Exact(s.transform));
        }
    }
}

#[test]
fn test_static_fast_path() {
    let shared = Transform::new(vec3(7.0, 8.0, 9.0), quat_from_euler(0.4, 0.0, 0.0));
    let transforms = vec![
        TimedTransform::new(time(1, 0), shared),
        TimedTransform::new(time(5, 0), shared),
        TimedTransform::new(time(9, 0), shared),
    ];
    for interpolation in [InterpolationMethod::Step, InterpolationMethod::Linear] {
        for extrapolation in [ExtrapolationMethod::Constant, ExtrapolationMethod::Linear] {
            for sec in [-10, 1, 4, 9, 40] {
                let result =
                    interpolate_samples(&transforms, interpolation, extrapolation, &time(sec, 0));
                assert_eq!(result, TransformEval::Exact(shared));
            }
        }
    }
}

#[test]
fn test_constant_extrapolation_clamps_to_boundaries() {
    let transforms = vec![
        sample(1, 0, vec3(1.0, 2.0, 3.0), quat_from_euler(0.0, 0.0, 0.0)),
        sample(2, 0, vec3(2.0, 3.0, 4.0), quat_from_euler(0.5, 0.0, 0.0)),
    ];
    for interpolation in [InterpolationMethod::Step, InterpolationMethod::Linear] {
        let before = interpolate_samples(
            &transforms,
            interpolation,
            ExtrapolationMethod::Constant,
            &time(-5, 0),
        );
        assert_eq!(before, TransformEval::Exact(transforms[0].transform));
        let after = interpolate_samples(
            &transforms,
            interpolation,
            ExtrapolationMethod::Constant,
            &time(99, 0),
        );
        assert_eq!(after, TransformEval::Exact(transforms[1].transform));
    }
}

#[test]
fn test_single_sample_behaves_like_static() {
    let only = Transform::new(vec3(4.0, 5.0, 6.0), quat_from_euler(0.0, 0.3, 0.0));
    let transforms = vec![TimedTransform::new(time(2, 0), only)];
    for sec in [0, 2, 10] {
        let result = interpolate_samples(
            &transforms,
            InterpolationMethod::Linear,
            ExtrapolationMethod::Constant,
            &time(sec, 0),
        );
        assert_eq!(result, TransformEval::Exact(only));
    }
}
