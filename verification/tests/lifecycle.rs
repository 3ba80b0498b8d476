//! The universal lifecycle laws, exercised on concrete blocks.

use stream_blocks::connectors::PortMap;
use stream_blocks::fir::Fir;
use stream_blocks::median_filter::MedianFilter;
use stream_blocks::rat::Rat;
use stream_blocks::stream_processor::StreamProcessor;
use stream_blocks::streaming_data::{StreamingError, StreamingState};
use stream_blocks::tags::Tag;
use stream_blocks::value::{Validator, Value, ValueKind};

fn rat(n: i64, d: i64) -> Rat {
    Rat::new(n, d).unwrap()
}

fn configured_fir() -> Fir {
    let mut b = Fir::new("f".to_string());
    b.core.set_static(Tag::Order, Value::Int(1)).unwrap();
    b.core
        .set_static(Tag::Coefficient, Value::RealVec(vec![rat(1, 2), rat(1, 2)]))
        .unwrap();
    b
}

#[test]
fn init_from_running_is_rejected_without_side_effects() {
    let mut b = configured_fir();
    b.init().unwrap();
    b.run().unwrap();
    assert!(b.core.check_state(StreamingState::Running));
    let r = b.init();
    assert_eq!(r, Err(StreamingError::InvalidStateTransition));
    assert!(b.core.check_state(StreamingState::Running));
    assert!(b.core.is_initialized());
}

#[test]
fn successful_init_reports_initialized_and_initial() {
    let mut b = configured_fir();
    assert!(b.init().is_ok());
    assert!(b.core.is_initialized());
    assert!(b.core.check_state(StreamingState::Initial));
}

#[test]
fn init_without_statics_reports_invalid_statics() {
    let mut b = Fir::new("f".to_string());
    assert_eq!(b.init(), Err(StreamingError::InvalidStatics));
    assert!(b.core.check_state(StreamingState::Null));
}

#[test]
fn stop_is_idempotent_and_always_succeeds() {
    let mut b = configured_fir();
    assert_eq!(b.stop(), Ok(()));
    assert!(b.core.check_state(StreamingState::Stopped));
    assert_eq!(b.stop(), Ok(()));
    assert!(b.core.check_state(StreamingState::Stopped));
    b.init().unwrap();
    b.run().unwrap();
    assert_eq!(b.stop(), Ok(()));
    assert!(b.core.check_state(StreamingState::Stopped));
}

#[test]
fn run_is_legal_only_from_initial() {
    let mut b = configured_fir();
    assert_eq!(b.run(), Err(StreamingError::InvalidStateTransition));
    b.init().unwrap();
    assert!(b.run().is_ok());
    assert!(b.core.check_state(StreamingState::Running));
    b.stop().unwrap();
    assert_eq!(b.run(), Err(StreamingError::InvalidStateTransition));
}

#[test]
fn slot_accessor_type_mismatch_reports_invalid_statics() {
    let b = configured_fir();
    let r = b.core.get_statics(Tag::Order, ValueKind::Real);
    assert_eq!(r, Err(StreamingError::InvalidStatics));
    let r2 = b.core.get_statics(Tag::Coefficient, ValueKind::Int);
    assert_eq!(r2, Err(StreamingError::InvalidStatics));
}

#[test]
fn slot_setter_type_mismatch_reports_invalid_statics() {
    let mut b = configured_fir();
    let r = b.core.set_static(Tag::Order, Value::Bool(true));
    assert_eq!(r, Err(StreamingError::InvalidStatics));
    let r2 = b.core.set_static(Tag::Gain, Value::Real(rat(1, 1)));
    assert_eq!(r2, Err(StreamingError::InvalidStatics));
}

#[test]
fn port_redeclaration_with_same_kind_is_idempotent() {
    let mut b = Fir::new("f".to_string());
    assert!(b.core.new_input(Tag::Input, ValueKind::RealVec).is_ok());
    assert!(b.core.new_output(Tag::Output, ValueKind::RealVec).is_ok());
}

#[test]
fn port_redeclaration_with_different_kind_is_rejected() {
    let mut b = Fir::new("f".to_string());
    let r = b.core.new_input(Tag::Input, ValueKind::ComplexVec);
    assert_eq!(r, Err(StreamingError::InvalidStatics));
    let r2 = b.core.new_output(Tag::Output, ValueKind::Real);
    assert_eq!(r2, Err(StreamingError::InvalidStatics));
}

#[test]
fn slot_redeclaration_with_different_kind_is_rejected() {
    let mut b = Fir::new("f".to_string());
    let r = b
        .core
        .new_statics(Tag::Order, Value::Real(rat(1, 1)), Validator::Any);
    assert_eq!(r, Err(StreamingError::InvalidStatics));
}

#[test]
fn validator_rejects_out_of_range_values() {
    let mut b = Fir::new("v".to_string());
    b.core
        .new_statics(Tag::Gain, Value::Real(rat(1, 1)), Validator::Positive)
        .unwrap();
    assert_eq!(
        b.core.set_static(Tag::Gain, Value::Real(rat(-1, 1))),
        Err(StreamingError::InvalidStatics)
    );
    assert!(b.core.set_static(Tag::Gain, Value::Real(rat(2, 1))).is_ok());
}

#[test]
fn missing_input_reports_channel_closed() {
    let mut b = configured_fir();
    b.init().unwrap();
    b.run().unwrap();
    let inputs = PortMap::new();
    assert!(matches!(b.process(&inputs), Err(StreamingError::ChannelClosed)));
    assert!(b.core.check_state(StreamingState::Running));
}

#[test]
fn wrong_input_kind_is_fatal_and_stops_the_block() {
    let mut b = configured_fir();
    b.init().unwrap();
    b.run().unwrap();
    let mut inputs = PortMap::new();
    inputs.insert(Tag::Input, Value::Real(rat(1, 1)));
    assert!(matches!(b.process(&inputs), Err(StreamingError::InvalidInput)));
    assert!(b.core.check_state(StreamingState::Stopped));
}

#[test]
fn median_order_zero_is_rejected_at_init() {
    let mut b = MedianFilter::new("m".to_string());
    b.core.set_static(Tag::Order, Value::Int(0)).unwrap();
    assert_eq!(b.init(), Err(StreamingError::InvalidStatics));
}

#[test]
fn tags_carry_their_canonical_names() {
    assert_eq!(Tag::Input.name(), "input");
    assert_eq!(Tag::Output.name(), "output");
    assert_eq!(Tag::Order.name(), "order");
    assert_eq!(Tag::Coefficient.name(), "coefficient");
    assert_eq!(Tag::ACoefficient.name(), "a_coefficient");
    assert_eq!(Tag::MatP0.name(), "P0");
    assert_eq!(Tag::FftSize.name(), "fft_size");
    assert_eq!(Tag::OutputTransform.name(), "output_transform");
}
