//! The spectral-transform block: the verified plan and input preparation,
//! composed with the production transform kernel the host uses.

use rustfft::num_complex::Complex;
use rustfft::FftPlanner;
use stream_blocks::connectors::PortMap;
use stream_blocks::cplx::Cplx;
use stream_blocks::modules::{
    filters_module, kind_of_name, lti_module, observer_module, transform_module, BlockKind,
};
use stream_blocks::fft::{factorize, FftProcessor};
use stream_blocks::rat::Rat;
use stream_blocks::streaming_data::{StreamingError, StreamingState};
use stream_blocks::tags::Tag;
use stream_blocks::value::{Value, ValueKind};

fn rat(n: i64, d: i64) -> Rat {
    Rat::new(n, d).unwrap()
}

fn rats(v: &[(i64, i64)]) -> Vec<Rat> {
    v.iter().map(|&(n, d)| rat(n, d)).collect()
}

fn to_f64(q: &Rat) -> f64 {
    q.num() as f64 / q.den() as f64
}

fn buffer_to_f64(buf: &[Cplx]) -> Vec<Complex<f64>> {
    buf.iter()
        .map(|c| Complex::new(to_f64(&c.re), to_f64(&c.im)))
        .collect()
}

#[test]
fn factorize_small_sizes() {
    assert_eq!(factorize(1), Vec::<usize>::new());
    assert_eq!(factorize(8), vec![2, 2, 2]);
    assert_eq!(factorize(12), vec![2, 2, 3]);
    assert_eq!(factorize(17), vec![17]);
    assert_eq!(factorize(1024), vec![2; 10]);
}

fn configured_fft(size: usize, complex_input: bool) -> FftProcessor {
    let mut b = FftProcessor::new("fft".to_string());
    b.core.set_static(Tag::FftSize, Value::Int(size)).unwrap();
    b.core.set_static(Tag::Inverse, Value::Bool(false)).unwrap();
    b.core
        .set_static(Tag::ComplexInput, Value::Bool(complex_input))
        .unwrap();
    b
}

#[test]
fn init_builds_the_prime_plan() {
    let mut b = configured_fft(12, false);
    b.init_block().unwrap();
    assert!(b.core.check_state(StreamingState::Initial));
    assert_eq!(b.plan, vec![2, 2, 3]);
    assert_eq!(b.plan_size, 12);
}

#[test]
fn zero_size_is_rejected_by_the_validator() {
    let mut b = FftProcessor::new("fft".to_string());
    assert_eq!(
        b.core.set_static(Tag::FftSize, Value::Int(0)),
        Err(StreamingError::InvalidStatics)
    );
    b.core.set_static(Tag::Inverse, Value::Bool(false)).unwrap();
    b.core.set_static(Tag::ComplexInput, Value::Bool(false)).unwrap();
    // The size was never assigned, so the block is not initialized.
    assert_eq!(b.init_block(), Err(StreamingError::InvalidStatics));
}

#[test]
fn prepare_pads_a_short_real_signal() {
    let mut b = configured_fft(8, false);
    b.init_block().unwrap();
    b.run().unwrap();
    let mut inputs = PortMap::new();
    inputs.insert(Tag::RealSignal, Value::RealVec(rats(&[(1, 1), (2, 1)])));
    let buf = b.prepare_input(&inputs).unwrap();
    assert_eq!(buf.len(), 8);
    assert!(buf[0].re.eq_value(&rat(1, 1)) && buf[0].im.eq_value(&rat(0, 1)));
    assert!(buf[1].re.eq_value(&rat(2, 1)));
    for c in &buf[2..] {
        assert!(c.re.eq_value(&rat(0, 1)) && c.im.eq_value(&rat(0, 1)));
    }
}

#[test]
fn prepare_rejects_an_overlong_signal() {
    let mut b = configured_fft(2, false);
    b.init_block().unwrap();
    let mut inputs = PortMap::new();
    inputs.insert(Tag::RealSignal, Value::RealVec(rats(&[(1, 1), (2, 1), (3, 1)])));
    assert_eq!(b.prepare_input(&inputs), Err(StreamingError::InvalidInput));
}

#[test]
fn prepare_reports_a_missing_upstream() {
    let mut b = configured_fft(4, true);
    b.init_block().unwrap();
    let inputs = PortMap::new();
    assert_eq!(b.prepare_input(&inputs), Err(StreamingError::ChannelClosed));
}

#[test]
fn fft_round_trip_of_a_unit_impulse() {
    // Forward transform of [1, 0, ..., 0] is flat ones; the inverse of
    // that recovers the impulse scaled by the length.
    let mut b = configured_fft(8, false);
    b.init_block().unwrap();
    b.run().unwrap();
    let mut inputs = PortMap::new();
    inputs.insert(
        Tag::RealSignal,
        Value::RealVec(rats(&[(1, 1), (0, 1), (0, 1), (0, 1), (0, 1), (0, 1), (0, 1), (0, 1)])),
    );
    let buf = b.prepare_input(&inputs).unwrap();
    let mut signal = buffer_to_f64(&buf);
    let mut planner = FftPlanner::new();
    let forward = planner.plan_fft_forward(8);
    forward.process(&mut signal);
    for c in &signal {
        assert!((c.re - 1.0).abs() < 1e-12 && c.im.abs() < 1e-12);
    }
    let inverse = planner.plan_fft_inverse(8);
    inverse.process(&mut signal);
    assert!((signal[0].re - 8.0).abs() < 1e-12);
    for c in &signal[1..] {
        assert!(c.re.abs() < 1e-12 && c.im.abs() < 1e-12);
    }
}

#[test]
fn fft_round_trip_scales_by_the_length() {
    let n = 16usize;
    let mut b = configured_fft(n, true);
    b.init_block().unwrap();
    b.run().unwrap();
    let samples: Vec<Cplx> = (0..n)
        .map(|i| Cplx::new(rat(i as i64, 1), rat((i % 3) as i64, 2)))
        .collect();
    let mut inputs = PortMap::new();
    inputs.insert(Tag::ComplexSignal, Value::ComplexVec(samples.clone()));
    let buf = b.prepare_input(&inputs).unwrap();
    let original = buffer_to_f64(&buf);
    let mut signal = original.clone();
    let mut planner = FftPlanner::new();
    planner.plan_fft_forward(n).process(&mut signal);
    planner.plan_fft_inverse(n).process(&mut signal);
    for (got, want) in signal.iter().zip(original.iter()) {
        assert!((got.re - want.re * n as f64).abs() < 1e-9);
        assert!((got.im - want.im * n as f64).abs() < 1e-9);
    }
}

#[test]
fn module_descriptors_list_their_blocks() {
    assert_eq!(
        filters_module().provides,
        vec![
            BlockKind::Fir,
            BlockKind::Iir,
            BlockKind::MedianFilter,
            BlockKind::MovingAverage
        ]
    );
    assert_eq!(
        lti_module().provides,
        vec![BlockKind::Zpk, BlockKind::Ss, BlockKind::Tf]
    );
    assert_eq!(
        observer_module().provides,
        vec![BlockKind::AlphaBetaGamma, BlockKind::KalmanFilter]
    );
    let t = transform_module();
    assert_eq!(t.provides, vec![BlockKind::Fft]);
    assert_eq!(t.version.major, 1);
    assert_eq!(t.name, "Digital Fourier Transform");
}

#[test]
fn block_kinds_resolve_by_their_canonical_names() {
    assert_eq!(kind_of_name("Fir"), Some(BlockKind::Fir));
    assert_eq!(kind_of_name("KalmanFilter"), Some(BlockKind::KalmanFilter));
    assert_eq!(kind_of_name("Fft"), Some(BlockKind::Fft));
    assert_eq!(kind_of_name("Spectrogram"), None);
    assert_eq!(kind_of_name(""), None);
}

#[test]
fn fft_size_defaults_to_1024() {
    let b = FftProcessor::new("fft".to_string());
    let v = b.core.get_statics(Tag::FftSize, ValueKind::Int).unwrap();
    assert_eq!(v, Value::Int(1024));
}
