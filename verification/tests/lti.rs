//! The LTI blocks on exact samples.

use stream_blocks::connectors::PortMap;
use stream_blocks::matrix::Mat;
use stream_blocks::rat::Rat;
use stream_blocks::ss::Ss;
use stream_blocks::state_space::StateSpace;
use stream_blocks::stream_processor::StreamProcessor;
use stream_blocks::streaming_data::{StreamingError, StreamingState};
use stream_blocks::tags::Tag;
use stream_blocks::tf::Tf;
use stream_blocks::value::Value;
use stream_blocks::zpk::Zpk;

fn rat(n: i64, d: i64) -> Rat {
    Rat::new(n, d).unwrap()
}

fn rats(v: &[(i64, i64)]) -> Vec<Rat> {
    v.iter().map(|&(n, d)| rat(n, d)).collect()
}

fn mat(rows: &[&[(i64, i64)]]) -> Mat {
    let rows_in: Vec<Vec<Rat>> = rows.iter().map(|r| rats(r)).collect();
    Mat::from_rows(&rows_in).unwrap()
}

fn step<B: StreamProcessor>(b: &mut B, u: Vec<Rat>) -> Vec<Rat> {
    let mut inputs = PortMap::new();
    inputs.insert(Tag::Input, Value::RealVec(u));
    let out = b.process(&inputs).unwrap();
    match out.get(Tag::Output).unwrap() {
        Value::RealVec(y) => y,
        _ => panic!("output kind"),
    }
}

#[test]
fn state_space_integrator() {
    let mut b = Ss::new("ss".to_string());
    b.core
        .set_static(Tag::MatA, Value::Matrix(mat(&[&[(1, 1)]])))
        .unwrap();
    b.core
        .set_static(Tag::MatB, Value::Matrix(mat(&[&[(1, 1)]])))
        .unwrap();
    b.core
        .set_static(Tag::MatC, Value::Matrix(mat(&[&[(1, 1)]])))
        .unwrap();
    b.core
        .set_static(Tag::MatD, Value::Matrix(mat(&[&[(0, 1)]])))
        .unwrap();
    b.core
        .set_static(Tag::X0, Value::Matrix(mat(&[&[(0, 1)]])))
        .unwrap();
    b.init().unwrap();
    b.run().unwrap();
    // The state is advanced before the output is read, so the running sum
    // of the inputs appears from the first step.
    let y1 = step(&mut b, rats(&[(1, 1)]));
    assert!(y1[0].eq_value(&rat(1, 1)));
    let y2 = step(&mut b, rats(&[(1, 1)]));
    assert!(y2[0].eq_value(&rat(2, 1)));
    let y3 = step(&mut b, rats(&[(1, 1)]));
    assert!(y3[0].eq_value(&rat(3, 1)));
}

#[test]
fn state_space_dimension_mismatch_stops_the_block() {
    let mut b = Ss::new("ss".to_string());
    b.core
        .set_static(Tag::MatA, Value::Matrix(mat(&[&[(1, 1)]])))
        .unwrap();
    b.core
        .set_static(Tag::MatB, Value::Matrix(mat(&[&[(1, 1)]])))
        .unwrap();
    b.core
        .set_static(Tag::MatC, Value::Matrix(mat(&[&[(1, 1)]])))
        .unwrap();
    b.core
        .set_static(Tag::MatD, Value::Matrix(mat(&[&[(0, 1)]])))
        .unwrap();
    b.core
        .set_static(Tag::X0, Value::Matrix(mat(&[&[(0, 1)]])))
        .unwrap();
    b.init().unwrap();
    b.run().unwrap();
    let mut inputs = PortMap::new();
    inputs.insert(Tag::Input, Value::RealVec(rats(&[(1, 1), (2, 1)])));
    assert!(matches!(b.process(&inputs), Err(StreamingError::InvalidInput)));
    assert!(b.core.check_state(StreamingState::Stopped));
}

#[test]
fn state_space_init_rejects_inconsistent_shapes() {
    let mut b = Ss::new("ss".to_string());
    b.core
        .set_static(Tag::MatA, Value::Matrix(mat(&[&[(1, 1), (0, 1)]])))
        .unwrap();
    b.core
        .set_static(Tag::MatB, Value::Matrix(mat(&[&[(1, 1)]])))
        .unwrap();
    b.core
        .set_static(Tag::MatC, Value::Matrix(mat(&[&[(1, 1)]])))
        .unwrap();
    b.core
        .set_static(Tag::MatD, Value::Matrix(mat(&[&[(0, 1)]])))
        .unwrap();
    b.core
        .set_static(Tag::X0, Value::Matrix(mat(&[&[(0, 1)]])))
        .unwrap();
    assert_eq!(b.init(), Err(StreamingError::InvalidStatics));
}

#[test]
fn transfer_function_step_response_accumulates_powers() {
    // num = [1], den = [1, -1/2]: y[k] = 1 + 1/2 + ... + (1/2)^k under a
    // unit step.
    let mut b = Tf::new("tf".to_string());
    b.core
        .set_static(Tag::Numerator, Value::RealVec(rats(&[(1, 1)])))
        .unwrap();
    b.core
        .set_static(Tag::Denominator, Value::RealVec(rats(&[(1, 1), (-1, 2)])))
        .unwrap();
    b.core
        .set_static(Tag::X0, Value::RealVec(rats(&[(0, 1)])))
        .unwrap();
    b.init().unwrap();
    b.run().unwrap();
    let y0 = step(&mut b, rats(&[(1, 1)]));
    assert!(y0[0].eq_value(&rat(1, 1)));
    let y1 = step(&mut b, rats(&[(1, 1)]));
    assert!(y1[0].eq_value(&rat(3, 2)));
    let y2 = step(&mut b, rats(&[(1, 1)]));
    assert!(y2[0].eq_value(&rat(7, 4)));
    let y3 = step(&mut b, rats(&[(1, 1)]));
    assert!(y3[0].eq_value(&rat(15, 8)));
}

#[test]
fn transfer_function_rejects_zero_leading_denominator() {
    let mut b = Tf::new("tf".to_string());
    b.core
        .set_static(Tag::Numerator, Value::RealVec(rats(&[(1, 1)])))
        .unwrap();
    b.core
        .set_static(Tag::Denominator, Value::RealVec(rats(&[(0, 1), (1, 1)])))
        .unwrap();
    b.core
        .set_static(Tag::X0, Value::RealVec(rats(&[(0, 1)])))
        .unwrap();
    assert_eq!(b.init(), Err(StreamingError::InvalidStatics));
}

#[test]
fn zpk_single_pole_impulse_decays_geometrically() {
    // No zeros, one pole at 1/2, gain 3: the impulse response is
    // 3 * (1/2)^k.
    let mut b = Zpk::new("zpk".to_string());
    b.core
        .set_static(Tag::Zeros, Value::RealVec(Vec::new()))
        .unwrap();
    b.core
        .set_static(Tag::Poles, Value::RealVec(rats(&[(1, 2)])))
        .unwrap();
    b.core.set_static(Tag::Gain, Value::Real(rat(3, 1))).unwrap();
    b.core
        .set_static(Tag::X0, Value::RealVec(rats(&[(0, 1)])))
        .unwrap();
    b.init().unwrap();
    b.run().unwrap();
    let y0 = step(&mut b, rats(&[(1, 1)]));
    assert!(y0[0].eq_value(&rat(3, 1)));
    let y1 = step(&mut b, rats(&[(0, 1)]));
    assert!(y1[0].eq_value(&rat(3, 2)));
    let y2 = step(&mut b, rats(&[(0, 1)]));
    assert!(y2[0].eq_value(&rat(3, 4)));
    let y3 = step(&mut b, rats(&[(0, 1)]));
    assert!(y3[0].eq_value(&rat(3, 8)));
}

#[test]
fn zpk_rejects_more_zeros_than_poles() {
    let mut b = Zpk::new("zpk".to_string());
    b.core
        .set_static(Tag::Zeros, Value::RealVec(rats(&[(1, 1), (2, 1)])))
        .unwrap();
    b.core
        .set_static(Tag::Poles, Value::RealVec(rats(&[(1, 2)])))
        .unwrap();
    b.core.set_static(Tag::Gain, Value::Real(rat(1, 1))).unwrap();
    b.core
        .set_static(Tag::X0, Value::RealVec(rats(&[(0, 1)])))
        .unwrap();
    assert_eq!(b.init(), Err(StreamingError::InvalidStatics));
}

#[test]
fn cauchy_convolves_polynomials() {
    // (1 + 2x) * (3 + x) = 3 + 7x + 2x^2.
    let a = rats(&[(1, 1), (2, 1)]);
    let b = rats(&[(3, 1), (1, 1)]);
    let c = StateSpace::cauchy(&a, &b).unwrap();
    assert_eq!(c.len(), 3);
    assert!(c[0].eq_value(&rat(3, 1)));
    assert!(c[1].eq_value(&rat(7, 1)));
    assert!(c[2].eq_value(&rat(2, 1)));
}

#[test]
fn matrix_inverse_is_exactly_checked() {
    let m = mat(&[&[(2, 1), (1, 1)], &[(1, 1), (1, 1)]]);
    let inv = m.try_inverse().unwrap();
    // [[1, -1], [-1, 2]] is the exact inverse.
    assert!(inv.get(0, 0).eq_value(&rat(1, 1)));
    assert!(inv.get(0, 1).eq_value(&rat(-1, 1)));
    assert!(inv.get(1, 0).eq_value(&rat(-1, 1)));
    assert!(inv.get(1, 1).eq_value(&rat(2, 1)));
    let singular = mat(&[&[(1, 1), (2, 1)], &[(2, 1), (4, 1)]]);
    assert!(singular.try_inverse().is_none());
}
