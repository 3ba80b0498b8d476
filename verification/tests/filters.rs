//! The filter blocks on exact samples.

use stream_blocks::connectors::PortMap;
use stream_blocks::fir::Fir;
use stream_blocks::iir::Iir;
use stream_blocks::median_filter::MedianFilter;
use stream_blocks::moving_average::MovingAverage;
use stream_blocks::rat::Rat;
use stream_blocks::stream_processor::StreamProcessor;
use stream_blocks::tags::Tag;
use stream_blocks::value::Value;

fn rat(n: i64, d: i64) -> Rat {
    Rat::new(n, d).unwrap()
}

fn rats(v: &[(i64, i64)]) -> Vec<Rat> {
    v.iter().map(|&(n, d)| rat(n, d)).collect()
}

fn run_block<B: StreamProcessor>(b: &mut B, input: Vec<Rat>) -> Vec<Rat> {
    let mut inputs = PortMap::new();
    inputs.insert(Tag::Input, Value::RealVec(input));
    let out = b.process(&inputs).unwrap();
    match out.get(Tag::Output).unwrap() {
        Value::RealVec(y) => y,
        _ => panic!("output kind"),
    }
}

fn assert_rats_eq(y: &[Rat], expected: &[(i64, i64)]) {
    assert_eq!(y.len(), expected.len());
    for (i, &(n, d)) in expected.iter().enumerate() {
        assert!(
            y[i].eq_value(&rat(n, d)),
            "sample {}: {}/{} != {}/{}",
            i,
            y[i].num(),
            y[i].den(),
            n,
            d
        );
    }
}

#[test]
fn fir_averager_scenario() {
    let mut b = Fir::new("fir".to_string());
    b.core.set_static(Tag::Order, Value::Int(3)).unwrap();
    b.core
        .set_static(
            Tag::Coefficient,
            Value::RealVec(rats(&[(1, 4), (1, 4), (1, 4), (1, 4)])),
        )
        .unwrap();
    b.init().unwrap();
    b.run().unwrap();
    let y = run_block(&mut b, rats(&[(1, 1), (1, 1), (1, 1), (1, 1), (1, 1)]));
    assert_rats_eq(&y, &[(1, 4), (1, 2), (3, 4), (1, 1), (1, 1)]);
}

#[test]
fn fir_impulse_response_replays_the_coefficients() {
    let mut b = Fir::new("fir".to_string());
    b.core.set_static(Tag::Order, Value::Int(3)).unwrap();
    b.core
        .set_static(
            Tag::Coefficient,
            Value::RealVec(rats(&[(1, 2), (1, 3), (1, 5), (1, 7)])),
        )
        .unwrap();
    b.init().unwrap();
    b.run().unwrap();
    let y = run_block(&mut b, rats(&[(1, 1), (0, 1), (0, 1), (0, 1), (0, 1), (0, 1)]));
    assert_rats_eq(&y, &[(1, 2), (1, 3), (1, 5), (1, 7), (0, 1), (0, 1)]);
}

#[test]
fn fir_overflowing_sample_is_fatal() {
    let mut b = Fir::new("fir".to_string());
    b.core.set_static(Tag::Order, Value::Int(0)).unwrap();
    b.core
        .set_static(Tag::Coefficient, Value::RealVec(rats(&[(i64::MAX, 1)])))
        .unwrap();
    b.init().unwrap();
    b.run().unwrap();
    let mut inputs = PortMap::new();
    inputs.insert(Tag::Input, Value::RealVec(rats(&[(i64::MAX, 1)])));
    assert!(matches!(
        b.process(&inputs),
        Err(stream_blocks::streaming_data::StreamingError::InvalidInput)
    ));
}

#[test]
fn fir_history_carries_across_process_calls() {
    let mut b = Fir::new("fir".to_string());
    b.core.set_static(Tag::Order, Value::Int(1)).unwrap();
    b.core
        .set_static(Tag::Coefficient, Value::RealVec(rats(&[(1, 2), (1, 2)])))
        .unwrap();
    b.init().unwrap();
    b.run().unwrap();
    let y1 = run_block(&mut b, rats(&[(2, 1)]));
    assert_rats_eq(&y1, &[(1, 1)]);
    let y2 = run_block(&mut b, rats(&[(4, 1)]));
    // (4 + 2) / 2: the previous block's last sample is remembered.
    assert_rats_eq(&y2, &[(3, 1)]);
}

#[test]
fn iir_with_zero_feedback_degenerates_to_fir() {
    let mut b = Iir::new("iir".to_string());
    b.core.set_static(Tag::Order, Value::Int(2)).unwrap();
    b.core
        .set_static(
            Tag::ACoefficient,
            Value::RealVec(rats(&[(1, 1), (0, 1), (0, 1)])),
        )
        .unwrap();
    b.core
        .set_static(Tag::BCoefficient, Value::RealVec(rats(&[(1, 2), (1, 4)])))
        .unwrap();
    b.init().unwrap();
    b.run().unwrap();
    let y = run_block(&mut b, rats(&[(1, 1), (0, 1), (0, 1), (2, 1)]));
    // Pure convolution with b: [1/2, 1/4, 0, 1].
    assert_rats_eq(&y, &[(1, 2), (1, 4), (0, 1), (1, 1)]);
}

#[test]
fn iir_feedback_subtracts_previous_outputs() {
    let mut b = Iir::new("iir".to_string());
    b.core.set_static(Tag::Order, Value::Int(1)).unwrap();
    b.core
        .set_static(Tag::ACoefficient, Value::RealVec(rats(&[(1, 1), (1, 2)])))
        .unwrap();
    b.core
        .set_static(Tag::BCoefficient, Value::RealVec(rats(&[(1, 1)])))
        .unwrap();
    b.init().unwrap();
    b.run().unwrap();
    // y[k] = x[k] - y[k-1]/2 with zero history.
    let y = run_block(&mut b, rats(&[(1, 1), (0, 1), (0, 1)]));
    assert_rats_eq(&y, &[(1, 1), (-1, 2), (1, 4)]);
}

#[test]
fn median_despike() {
    let mut b = MedianFilter::new("med".to_string());
    b.core.set_static(Tag::Order, Value::Int(3)).unwrap();
    b.init().unwrap();
    b.run().unwrap();
    let y = run_block(&mut b, rats(&[(1, 1), (100, 1), (1, 1), (100, 1), (1, 1)]));
    // Windows fill from the left: [1], [1,100], [1,100,1], [100,1,100],
    // [1,100,1]; the spikes survive only while they are the strict
    // majority of their window.
    assert_rats_eq(&y, &[(1, 1), (101, 2), (1, 1), (100, 1), (1, 1)]);
}

#[test]
fn median_order_one_is_the_identity() {
    let mut b = MedianFilter::new("med".to_string());
    b.core.set_static(Tag::Order, Value::Int(1)).unwrap();
    b.init().unwrap();
    b.run().unwrap();
    let y = run_block(&mut b, rats(&[(3, 1), (-5, 2), (7, 3), (0, 1)]));
    assert_rats_eq(&y, &[(3, 1), (-5, 2), (7, 3), (0, 1)]);
}

#[test]
fn median_even_window_takes_the_middle_mean() {
    let mut b = MedianFilter::new("med".to_string());
    b.core.set_static(Tag::Order, Value::Int(2)).unwrap();
    b.init().unwrap();
    b.run().unwrap();
    let y = run_block(&mut b, rats(&[(1, 1), (3, 1), (5, 1)]));
    assert_rats_eq(&y, &[(1, 1), (2, 1), (4, 1)]);
}

#[test]
fn moving_average_centred_window() {
    let mut b = MovingAverage::new("ma".to_string());
    b.core.set_static(Tag::Order, Value::Int(2)).unwrap();
    b.init().unwrap();
    b.run().unwrap();
    let y = run_block(&mut b, rats(&[(1, 1), (2, 1), (3, 1), (4, 1), (5, 1)]));
    assert_rats_eq(&y, &[(3, 2), (2, 1), (3, 1), (4, 1), (9, 2)]);
}

#[test]
fn moving_average_order_zero_is_the_identity() {
    let mut b = MovingAverage::new("ma".to_string());
    b.core.set_static(Tag::Order, Value::Int(0)).unwrap();
    b.init().unwrap();
    b.run().unwrap();
    let y = run_block(&mut b, rats(&[(7, 2), (-1, 3), (0, 1)]));
    assert_rats_eq(&y, &[(7, 2), (-1, 3), (0, 1)]);
}

#[test]
fn moving_average_wide_window_is_the_whole_mean() {
    let mut b = MovingAverage::new("ma".to_string());
    b.core.set_static(Tag::Order, Value::Int(8)).unwrap();
    b.init().unwrap();
    b.run().unwrap();
    let y = run_block(&mut b, rats(&[(1, 1), (2, 1), (6, 1)]));
    assert_rats_eq(&y, &[(3, 1), (3, 1), (3, 1)]);
}
