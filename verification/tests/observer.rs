//! The observer blocks on exact samples.

use stream_blocks::alpha_beta_gamma::AlphaBetaGamma;
use stream_blocks::connectors::PortMap;
use stream_blocks::kalman_filter::KalmanFilter;
use stream_blocks::matrix::Mat;
use stream_blocks::rat::Rat;
use stream_blocks::stream_processor::StreamProcessor;
use stream_blocks::tags::Tag;
use stream_blocks::value::Value;

fn rat(n: i64, d: i64) -> Rat {
    Rat::new(n, d).unwrap()
}

fn rats(v: &[(i64, i64)]) -> Vec<Rat> {
    v.iter().map(|&(n, d)| rat(n, d)).collect()
}

fn mat(rows: &[&[(i64, i64)]]) -> Mat {
    let built: Vec<Vec<Rat>> = rows.iter().map(|r| rats(r)).collect();
    Mat::from_rows(&built).unwrap()
}

fn abg_at(b: &mut AlphaBetaGamma, sample: Rat, now: u64) -> Rat {
    let mut inputs = PortMap::new();
    inputs.insert(Tag::Input, Value::Real(sample));
    let out = b.process_at(&inputs, now).unwrap();
    match out.get(Tag::Output).unwrap() {
        Value::Real(q) => q,
        _ => panic!("output kind"),
    }
}

#[test]
fn alpha_beta_gamma_first_sample_seeds_the_position() {
    let mut b = AlphaBetaGamma::new("abg".to_string());
    b.core.set_static(Tag::Alpha, Value::Real(rat(0, 1))).unwrap();
    b.core.set_static(Tag::Beta, Value::Real(rat(0, 1))).unwrap();
    b.core.set_static(Tag::Gamma, Value::Real(rat(0, 1))).unwrap();
    b.init().unwrap();
    b.run().unwrap();
    let y1 = abg_at(&mut b, rat(5, 1), 1_000_000);
    assert!(y1.eq_value(&rat(5, 1)));
    // One second later: with all gains zero there is no correction and no
    // velocity, so the position stays.
    let y2 = abg_at(&mut b, rat(7, 1), 2_000_000);
    assert!(y2.eq_value(&rat(5, 1)));
}

#[test]
fn alpha_beta_gamma_alpha_one_tracks_the_input() {
    let mut b = AlphaBetaGamma::new("abg".to_string());
    b.core.set_static(Tag::Alpha, Value::Real(rat(1, 1))).unwrap();
    b.core.set_static(Tag::Beta, Value::Real(rat(0, 1))).unwrap();
    b.core.set_static(Tag::Gamma, Value::Real(rat(0, 1))).unwrap();
    b.init().unwrap();
    b.run().unwrap();
    let _ = abg_at(&mut b, rat(5, 1), 1_000_000);
    // pred = 5, err = 2, p = 5 + 1 * 2 = 7.
    let y2 = abg_at(&mut b, rat(7, 1), 2_000_000);
    assert!(y2.eq_value(&rat(7, 1)));
}

#[test]
fn alpha_beta_gamma_velocity_carries_over_time() {
    let mut b = AlphaBetaGamma::new("abg".to_string());
    b.core.set_static(Tag::Alpha, Value::Real(rat(0, 1))).unwrap();
    b.core.set_static(Tag::Beta, Value::Real(rat(1, 1))).unwrap();
    b.core.set_static(Tag::Gamma, Value::Real(rat(0, 1))).unwrap();
    b.init().unwrap();
    b.run().unwrap();
    let _ = abg_at(&mut b, rat(0, 1), 0);
    // After one second: pred = 0, err = 2, v becomes 2.
    let _ = abg_at(&mut b, rat(2, 1), 1_000_000);
    // Another second: pred = 0 + 2 * 1 = 2.
    let y3 = abg_at(&mut b, rat(0, 1), 2_000_000);
    assert!(y3.eq_value(&rat(2, 1)));
}

fn configured_kalman(r_entry: (i64, i64)) -> KalmanFilter {
    let mut b = KalmanFilter::new("kal".to_string());
    b.core
        .set_static(Tag::MatA, Value::Matrix(mat(&[&[(1, 1)]])))
        .unwrap();
    b.core
        .set_static(Tag::MatB, Value::Matrix(mat(&[&[(0, 1)]])))
        .unwrap();
    b.core
        .set_static(Tag::MatH, Value::Matrix(mat(&[&[(1, 1)]])))
        .unwrap();
    b.core
        .set_static(Tag::MatQ, Value::Matrix(mat(&[&[(0, 1)]])))
        .unwrap();
    b.core
        .set_static(Tag::MatR, Value::Matrix(mat(&[&[r_entry]])))
        .unwrap();
    b.core
        .set_static(Tag::MatP0, Value::Matrix(mat(&[&[(1, 1)]])))
        .unwrap();
    b.core
        .set_static(Tag::InitialState, Value::RealVec(rats(&[(0, 1)])))
        .unwrap();
    b
}

fn kalman_step_test(b: &mut KalmanFilter, u: Vec<Rat>, z: Vec<Rat>) -> Vec<Rat> {
    let mut inputs = PortMap::new();
    inputs.insert(Tag::Control, Value::RealVec(u));
    inputs.insert(Tag::Measurement, Value::RealVec(z));
    let out = b.process(&inputs).unwrap();
    match out.get(Tag::Output).unwrap() {
        Value::RealVec(y) => y,
        _ => panic!("output kind"),
    }
}

#[test]
fn kalman_with_exact_measurements_tracks_the_measurement() {
    // A = I, B = 0, H = I, Q = 0, R = 0, P0 = I: the gain is one and the
    // state equals the measurement.
    let mut b = configured_kalman((0, 1));
    b.init().unwrap();
    b.run().unwrap();
    let y = kalman_step_test(&mut b, rats(&[(0, 1)]), rats(&[(3, 1)]));
    assert!(y[0].eq_value(&rat(3, 1)));
}

#[test]
fn kalman_balances_prior_and_measurement() {
    // With R = 1 and P0 = 1 the gain is 1/2: the state lands halfway
    // between the prior and the measurement.
    let mut b = configured_kalman((1, 1));
    b.init().unwrap();
    b.run().unwrap();
    let y = kalman_step_test(&mut b, rats(&[(0, 1)]), rats(&[(3, 1)]));
    assert!(y[0].eq_value(&rat(3, 2)));
}

#[test]
fn kalman_init_rejects_mismatched_state_length() {
    let mut b = configured_kalman((1, 1));
    b.core
        .set_static(Tag::InitialState, Value::RealVec(rats(&[(0, 1), (0, 1)])))
        .unwrap();
    assert!(b.init().is_err());
}
