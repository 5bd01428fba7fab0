use tessera::domain::pattern_ir::{
    ControlEvent, ControlKeyIr, ControlStream, ControlValueIr, CycleDuration, CycleSpan, CycleTime,
    EventValue, PatternEvent, PatternNodeIr, PatternOutput, PatternStream, PatternStreamShape,
};
use tessera::domain::program::NodeId;
use tessera::domain::rational::Rational;

fn span(start: i64, duration: i64) -> CycleSpan {
    CycleSpan {
        start: CycleTime(Rational::from_integer(start)),
        duration: CycleDuration(Rational::from_integer(duration)),
    }
}

fn note(start: i64, duration: i64, value: &str) -> PatternEvent {
    PatternEvent::new(span(start, duration), EventValue::Note { value: value.to_string(), octave: None })
}

#[test]
fn pattern_output_exposes_flat_events_from_structured_root() {
    let left = PatternNodeIr::event_stream(PatternStream::new(vec![note(0, 1, "a")]));
    let right = PatternNodeIr::event_stream(PatternStream::new(vec![note(1, 1, "b")]));
    let output = PatternOutput::new(NodeId::new("out"), PatternNodeIr::merge(vec![left, right]));
    let events = output.events();
    assert_eq!(events.len(), 2);
}

#[test]
fn time_scale_node_flattens_by_scaling_stream_time() {
    let node = PatternNodeIr::time_scale(
        PatternNodeIr::event_stream(PatternStream::new(vec![note(0, 1, "a")])),
        Rational::from_integer(2),
    );
    let stream = node.flatten();
    assert_eq!(stream.events[0].span.duration, CycleDuration(Rational::from_integer(2)));
}

#[test]
fn control_stream_has_control_shape_and_flat_scalar_view() {
    let control = ControlEvent::new(span(0, 1), ControlKeyIr::Gain, ControlValueIr::rational(Rational::new(1, 2)));
    let node = PatternNodeIr::control_stream(ControlStream::new(vec![control]));
    assert_eq!(node.shape(), PatternStreamShape::Control);
    assert_eq!(node.flatten().events.len(), 1);
}

#[test]
fn structural_degrade_flattens_to_inner_for_preview_only() {
    let node = PatternNodeIr::degrade(
        PatternNodeIr::event_stream(PatternStream::new(vec![note(0, 1, "a")])),
        Rational::new(1, 2),
        42,
    );
    assert_eq!(node.flatten().events.len(), 1);
}

#[test]
fn shifting_a_span_back_gives_it_back() {
    let s = CycleSpan { start: CycleTime(Rational::new(3, 4)), duration: CycleDuration(Rational::new(1, 3)) };
    let offset = CycleDuration(Rational::new(5, 6));
    let moved = s.shift_by(offset);
    assert_eq!(moved.start.0, Rational::new(19, 12));
    let back = moved.shift_by(CycleDuration(Rational::zero().minus(offset.0)));
    assert_eq!(back, s);
}

#[test]
fn zero_and_one_are_identities() {
    let x = Rational::new(-6, 8);
    assert_eq!(x, Rational::new(-3, 4));
    assert_eq!(x.plus(Rational::zero()), x);
    assert_eq!(x.minus(Rational::zero()), x);
    assert_eq!(x.times(Rational::one()), x);
    assert_eq!(x.divided_by(Rational::one()), x);
    assert!(!Rational::zero().is_positive());
    assert!(Rational::one().is_positive());
}

fn rational_note(start: Rational, duration: Rational, value: &str) -> PatternEvent {
    PatternEvent::new(
        CycleSpan { start: CycleTime(start), duration: CycleDuration(duration) },
        EventValue::Note { value: value.to_string(), octave: None },
    )
}

fn sample_stream() -> PatternStream {
    PatternStream::new(vec![
        rational_note(Rational::new(1, 2), Rational::new(1, 4), "a"),
        rational_note(Rational::new(1, 3), Rational::new(1, 2), "b"),
        rational_note(Rational::new(5, 4), Rational::new(1, 3), "c"),
    ])
}

#[test]
fn mirroring_a_span_twice_gives_it_back() {
    let s = CycleSpan { start: CycleTime(Rational::new(1, 3)), duration: CycleDuration(Rational::new(1, 4)) };
    let origin = CycleTime(Rational::new(1, 6));
    let end = CycleTime(Rational::new(2, 1));
    let once = s.reverse_within(origin, end);
    assert_eq!(once.start.0, Rational::new(19, 12));
    assert_eq!(once.duration, s.duration);
    assert_eq!(once.reverse_within(origin, end), s);
}

#[test]
fn reversing_a_stream_twice_gives_it_back_and_keeps_its_bounds() {
    let reversed = sample_stream().reverse();
    assert_eq!(reversed.bounds(), sample_stream().bounds());
    assert_eq!(reversed.events[0].span.start.0, Rational::new(7, 6));
    assert_eq!(reversed.reverse(), sample_stream());
    assert_eq!(PatternStream::new(vec![]).reverse(), PatternStream::new(vec![]));
}

#[test]
fn slowing_a_faster_stream_by_the_same_factor_gives_it_back() {
    let factor = Rational::new(3, 2);
    let faster = sample_stream().fast(factor);
    assert_eq!(faster.bounds().map(|b| b.0), sample_stream().bounds().map(|b| b.0));
    assert_eq!(faster.events[2].span.start.0, Rational::new(17, 18));
    assert_eq!(faster.events[2].span.duration.0, Rational::new(2, 9));
    assert_eq!(faster.slow(factor), sample_stream());
    assert_eq!(sample_stream().fast(Rational::new(-1, 2)), sample_stream());
}
