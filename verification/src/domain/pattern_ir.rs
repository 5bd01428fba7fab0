//! The pattern IR: timed events, streams and the structured node tree that
//! compiled outputs are made of, with the time transformations on them.

use vstd::prelude::*;

use super::program::NodeId;
pub use super::rational::Rational;
use super::rational::{
    add_ok, mul_ok, rat_le, rat_lt, spec_add, spec_integer, spec_mul, spec_sub, sub_ok,
};
use crate::text::owned;

verus! {

broadcast use vstd::seq_lib::group_seq_properties;

/// A point in cycle time.
#[derive(Debug, Clone, Copy, PartialEq, Eq, Structural)]
pub struct CycleTime(pub Rational);

/// A length of cycle time.
#[derive(Debug, Clone, Copy, PartialEq, Eq, Structural)]
pub struct CycleDuration(pub Rational);

/// A start time with a duration.
#[derive(Debug, Clone, Copy, PartialEq, Eq, Structural)]
pub struct CycleSpan {
    pub start: CycleTime,
    pub duration: CycleDuration,
}

pub open spec fn span_end_ok(s: CycleSpan) -> bool {
    add_ok(s.start.0, s.duration.0)
}

pub open spec fn spec_span_end(s: CycleSpan) -> CycleTime {
    CycleTime(spec_add(s.start.0, s.duration.0))
}

pub open spec fn span_shift_ok(s: CycleSpan, offset: CycleDuration) -> bool {
    add_ok(s.start.0, offset.0)
}

pub open spec fn spec_span_shift(s: CycleSpan, offset: CycleDuration) -> CycleSpan {
    CycleSpan { start: CycleTime(spec_add(s.start.0, offset.0)), duration: s.duration }
}

pub open spec fn span_scale_ok(s: CycleSpan, origin: CycleTime, factor: Rational) -> bool {
    let rel = spec_sub(s.start.0, origin.0);
    &&& sub_ok(s.start.0, origin.0)
    &&& mul_ok(rel, factor)
    &&& add_ok(origin.0, spec_mul(rel, factor))
    &&& mul_ok(s.duration.0, factor)
}

/// The span with its offset from `origin` and its duration both multiplied by `factor`.
pub open spec fn spec_span_scale(s: CycleSpan, origin: CycleTime, factor: Rational) -> CycleSpan {
    CycleSpan {
        start: CycleTime(spec_add(origin.0, spec_mul(spec_sub(s.start.0, origin.0), factor))),
        duration: CycleDuration(spec_mul(s.duration.0, factor)),
    }
}

pub open spec fn span_reverse_ok(s: CycleSpan, origin: CycleTime, end: CycleTime) -> bool {
    let event_end = spec_span_end(s).0;
    &&& span_end_ok(s)
    &&& sub_ok(event_end, origin.0)
    &&& sub_ok(end.0, spec_sub(event_end, origin.0))
}

/// The span mirrored inside `[origin, end]`: it now starts where it used to end,
/// counted back from `end`.
pub open spec fn spec_span_reverse(s: CycleSpan, origin: CycleTime, end: CycleTime) -> CycleSpan {
    CycleSpan {
        start: CycleTime(spec_sub(end.0, spec_sub(spec_span_end(s).0, origin.0))),
        duration: s.duration,
    }
}

impl CycleSpan {
    pub fn new(start: CycleTime, duration: CycleDuration) -> (r: Self)
        ensures
            r == (CycleSpan { start, duration }),
    {
        CycleSpan { start, duration }
    }

    pub fn end(self) -> (r: CycleTime)
        requires
            span_end_ok(self),
        ensures
            r == spec_span_end(self),
    {
        CycleTime(self.start.0.plus(self.duration.0))
    }

    pub fn shift_by(self, offset: CycleDuration) -> (r: Self)
        requires
            span_shift_ok(self, offset),
        ensures
            r == spec_span_shift(self, offset),
    {
        CycleSpan { start: CycleTime(self.start.0.plus(offset.0)), duration: self.duration }
    }

    pub fn scale_relative_to(self, origin: CycleTime, factor: Rational) -> (r: Self)
        requires
            span_scale_ok(self, origin, factor),
        ensures
            r == spec_span_scale(self, origin, factor),
    {
        let relative_start = self.start.0.minus(origin.0);
        CycleSpan {
            start: CycleTime(origin.0.plus(relative_start.times(factor))),
            duration: CycleDuration(self.duration.0.times(factor)),
        }
    }

    pub fn reverse_within(self, origin: CycleTime, end: CycleTime) -> (r: Self)
        requires
            span_reverse_ok(self, origin, end),
        ensures
            r == spec_span_reverse(self, origin, end),
    {
        let event_end = self.end();
        CycleSpan {
            start: CycleTime(end.0.minus(event_end.0.minus(origin.0))),
            duration: self.duration,
        }
    }
}

/// What an event plays.
#[derive(Debug, PartialEq, Eq)]
pub enum EventValue {
    Note { value: String, octave: Option<i64> },
    Rest,
    Scalar { value: Rational },
}

/// The content of an event value, with text as characters.
pub enum EventValueView {
    Note { value: Seq<char>, octave: Option<i64> },
    Rest,
    Scalar { value: Rational },
}

impl View for EventValue {
    type V = EventValueView;

    open spec fn view(&self) -> EventValueView {
        match self {
            EventValue::Note { value, octave } => EventValueView::Note {
                value: value@,
                octave: *octave,
            },
            EventValue::Rest => EventValueView::Rest,
            EventValue::Scalar { value } => EventValueView::Scalar { value: *value },
        }
    }
}

impl Clone for EventValue {
    fn clone(&self) -> (r: Self)
        ensures
            r == *self,
    {
        match self {
            EventValue::Note { value, octave } => EventValue::Note {
                value: value.clone(),
                octave: *octave,
            },
            EventValue::Rest => EventValue::Rest,
            EventValue::Scalar { value } => EventValue::Scalar { value: *value },
        }
    }
}

impl EventValue {
    pub fn is_rest(&self) -> (r: bool)
        ensures
            r == (*self is Rest),
    {
        match self {
            EventValue::Rest => true,
            _ => false,
        }
    }

    pub fn is_scalar(&self) -> (r: bool)
        ensures
            r == (*self is Scalar),
    {
        match self {
            EventValue::Scalar { .. } => true,
            _ => false,
        }
    }
}

/// The value of an event field.
#[derive(Debug, PartialEq, Eq)]
pub enum FieldValue {
    Rational { value: Rational },
    Bool { value: bool },
    Symbol { value: String },
}

/// The content of a field value, with text as characters.
pub enum FieldValueView {
    Rational { value: Rational },
    Bool { value: bool },
    Symbol { value: Seq<char> },
}

impl View for FieldValue {
    type V = FieldValueView;

    open spec fn view(&self) -> FieldValueView {
        match self {
            FieldValue::Rational { value } => FieldValueView::Rational { value: *value },
            FieldValue::Bool { value } => FieldValueView::Bool { value: *value },
            FieldValue::Symbol { value } => FieldValueView::Symbol { value: value@ },
        }
    }
}

impl Clone for FieldValue {
    fn clone(&self) -> (r: Self)
        ensures
            r == *self,
    {
        match self {
            FieldValue::Rational { value } => FieldValue::Rational { value: *value },
            FieldValue::Bool { value } => FieldValue::Bool { value: *value },
            FieldValue::Symbol { value } => FieldValue::Symbol { value: value.clone() },
        }
    }
}

impl FieldValue {
    pub fn rational(value: Rational) -> (r: Self)
        ensures
            r == (FieldValue::Rational { value }),
    {
        FieldValue::Rational { value }
    }

    pub fn bool(value: bool) -> (r: Self)
        ensures
            r == (FieldValue::Bool { value }),
    {
        FieldValue::Bool { value }
    }

    pub fn symbol(value: &str) -> (r: Self)
        ensures
            r matches FieldValue::Symbol { value: v } && v@ == value@,
    {
        FieldValue::Symbol { value: owned(value) }
    }
}

/// A named parameter attached to an event.
#[derive(Debug, PartialEq, Eq)]
pub enum EventField {
    Gain(FieldValue),
    PostGain(FieldValue),
    Pan(FieldValue),
    Pitch(FieldValue),
    PitchBend(FieldValue),
    PlaybackRate(FieldValue),
    PlaybackStart(FieldValue),
    PlaybackEnd(FieldValue),
    Reverse(FieldValue),
    Attack(FieldValue),
    Decay(FieldValue),
    Sustain(FieldValue),
    Release(FieldValue),
    LowPassCutoff(FieldValue),
    LowPassResonance(FieldValue),
    HighPassCutoff(FieldValue),
    HighPassResonance(FieldValue),
    ReverbSend(FieldValue),
    DelaySend(FieldValue),
    Select(FieldValue),
    Custom { key: String, value: FieldValue },
    Elongate(FieldValue),
    Replicate(FieldValue),
    Degrade(FieldValue),
    RandomChoice,
    Transpose(FieldValue),
}

/// The content of an event field, with text as characters.
pub enum EventFieldView {
    Gain(FieldValueView),
    PostGain(FieldValueView),
    Pan(FieldValueView),
    Pitch(FieldValueView),
    PitchBend(FieldValueView),
    PlaybackRate(FieldValueView),
    PlaybackStart(FieldValueView),
    PlaybackEnd(FieldValueView),
    Reverse(FieldValueView),
    Attack(FieldValueView),
    Decay(FieldValueView),
    Sustain(FieldValueView),
    Release(FieldValueView),
    LowPassCutoff(FieldValueView),
    LowPassResonance(FieldValueView),
    HighPassCutoff(FieldValueView),
    HighPassResonance(FieldValueView),
    ReverbSend(FieldValueView),
    DelaySend(FieldValueView),
    Select(FieldValueView),
    Custom { key: Seq<char>, value: FieldValueView },
    Elongate(FieldValueView),
    Replicate(FieldValueView),
    Degrade(FieldValueView),
    RandomChoice,
    Transpose(FieldValueView),
}

impl View for EventField {
    type V = EventFieldView;

    open spec fn view(&self) -> EventFieldView {
        match self {
            EventField::Gain(v) => EventFieldView::Gain(v@),
            EventField::PostGain(v) => EventFieldView::PostGain(v@),
            EventField::Pan(v) => EventFieldView::Pan(v@),
            EventField::Pitch(v) => EventFieldView::Pitch(v@),
            EventField::PitchBend(v) => EventFieldView::PitchBend(v@),
            EventField::PlaybackRate(v) => EventFieldView::PlaybackRate(v@),
            EventField::PlaybackStart(v) => EventFieldView::PlaybackStart(v@),
            EventField::PlaybackEnd(v) => EventFieldView::PlaybackEnd(v@),
            EventField::Reverse(v) => EventFieldView::Reverse(v@),
            EventField::Attack(v) => EventFieldView::Attack(v@),
            EventField::Decay(v) => EventFieldView::Decay(v@),
            EventField::Sustain(v) => EventFieldView::Sustain(v@),
            EventField::Release(v) => EventFieldView::Release(v@),
            EventField::LowPassCutoff(v) => EventFieldView::LowPassCutoff(v@),
            EventField::LowPassResonance(v) => EventFieldView::LowPassResonance(v@),
            EventField::HighPassCutoff(v) => EventFieldView::HighPassCutoff(v@),
            EventField::HighPassResonance(v) => EventFieldView::HighPassResonance(v@),
            EventField::ReverbSend(v) => EventFieldView::ReverbSend(v@),
            EventField::DelaySend(v) => EventFieldView::DelaySend(v@),
            EventField::Select(v) => EventFieldView::Select(v@),
            EventField::Custom { key, value } => EventFieldView::Custom { key: key@, value: value@ },
            EventField::Elongate(v) => EventFieldView::Elongate(v@),
            EventField::Replicate(v) => EventFieldView::Replicate(v@),
            EventField::Degrade(v) => EventFieldView::Degrade(v@),
            EventField::RandomChoice => EventFieldView::RandomChoice,
            EventField::Transpose(v) => EventFieldView::Transpose(v@),
        }
    }
}

impl Clone for EventField {
    fn clone(&self) -> (r: Self)
        ensures
            r == *self,
    {
        match self {
            EventField::Gain(v) => EventField::Gain(v.clone()),
            EventField::PostGain(v) => EventField::PostGain(v.clone()),
            EventField::Pan(v) => EventField::Pan(v.clone()),
            EventField::Pitch(v) => EventField::Pitch(v.clone()),
            EventField::PitchBend(v) => EventField::PitchBend(v.clone()),
            EventField::PlaybackRate(v) => EventField::PlaybackRate(v.clone()),
            EventField::PlaybackStart(v) => EventField::PlaybackStart(v.clone()),
            EventField::PlaybackEnd(v) => EventField::PlaybackEnd(v.clone()),
            EventField::Reverse(v) => EventField::Reverse(v.clone()),
            EventField::Attack(v) => EventField::Attack(v.clone()),
            EventField::Decay(v) => EventField::Decay(v.clone()),
            EventField::Sustain(v) => EventField::Sustain(v.clone()),
            EventField::Release(v) => EventField::Release(v.clone()),
            EventField::LowPassCutoff(v) => EventField::LowPassCutoff(v.clone()),
            EventField::LowPassResonance(v) => EventField::LowPassResonance(v.clone()),
            EventField::HighPassCutoff(v) => EventField::HighPassCutoff(v.clone()),
            EventField::HighPassResonance(v) => EventField::HighPassResonance(v.clone()),
            EventField::ReverbSend(v) => EventField::ReverbSend(v.clone()),
            EventField::DelaySend(v) => EventField::DelaySend(v.clone()),
            EventField::Select(v) => EventField::Select(v.clone()),
            EventField::Custom { key, value } => EventField::Custom {
                key: key.clone(),
                value: value.clone(),
            },
            EventField::Elongate(v) => EventField::Elongate(v.clone()),
            EventField::Replicate(v) => EventField::Replicate(v.clone()),
            EventField::Degrade(v) => EventField::Degrade(v.clone()),
            EventField::RandomChoice => EventField::RandomChoice,
            EventField::Transpose(v) => EventField::Transpose(v.clone()),
        }
    }
}

/// A copy of `v` with every element cloned.
pub fn clone_fields(v: &Vec<EventField>) -> (r: Vec<EventField>)
    ensures
        r@ == v@,
{
    let mut r: Vec<EventField> = Vec::new();
    let mut i: usize = 0;
    while i < v.len()
        invariant
            i <= v@.len(),
            r@ == v@.subrange(0, i as int),
        decreases v@.len() - i,
    {
        r.push(v[i].clone());
        i = i + 1;
    }
    proof {
        assert(r@ =~= v@);
    }
    r
}

/// One timed event of a pattern.
#[derive(Debug, PartialEq, Eq)]
pub struct PatternEvent {
    pub span: CycleSpan,
    pub value: EventValue,
    pub fields: Vec<EventField>,
}

/// The mathematical content of an event: its span, value and field list.
pub struct PatternEventView {
    pub span: CycleSpan,
    pub value: EventValueView,
    pub fields: Seq<EventFieldView>,
}

impl View for PatternEvent {
    type V = PatternEventView;

    open spec fn view(&self) -> PatternEventView {
        PatternEventView {
            span: self.span,
            value: self.value@,
            fields: self.fields@.map_values(|f: EventField| f@),
        }
    }
}

impl Clone for PatternEvent {
    fn clone(&self) -> (r: Self)
        ensures
            r@ == self@,
    {
        let fields = clone_fields(&self.fields);
        PatternEvent { span: self.span, value: self.value.clone(), fields }
    }
}

/// `e` with its span replaced.
pub open spec fn with_span(e: PatternEventView, span: CycleSpan) -> PatternEventView {
    PatternEventView { span, value: e.value, fields: e.fields }
}

impl PatternEvent {
    pub fn new(span: CycleSpan, value: EventValue) -> (r: Self)
        ensures
            r.span == span,
            r.value == value,
            r.fields@.len() == 0,
    {
        PatternEvent { span, value, fields: Vec::new() }
    }

    pub fn with_fields(self, fields: Vec<EventField>) -> (r: Self)
        ensures
            r.span == self.span,
            r.value == self.value,
            r.fields == fields,
            r@.fields == fields@.map_values(|f: EventField| f@),
    {
        PatternEvent { span: self.span, value: self.value, fields }
    }

    pub fn shift_by(self, offset: CycleDuration) -> (r: Self)
        requires
            span_shift_ok(self.span, offset),
        ensures
            r@ == with_span(self@, spec_span_shift(self.span, offset)),
    {
        let span = self.span.shift_by(offset);
        PatternEvent { span, value: self.value, fields: self.fields }
    }

    pub fn scale_relative_to(self, origin: CycleTime, factor: Rational) -> (r: Self)
        requires
            span_scale_ok(self.span, origin, factor),
        ensures
            r@ == with_span(self@, spec_span_scale(self.span, origin, factor)),
    {
        let span = self.span.scale_relative_to(origin, factor);
        PatternEvent { span, value: self.value, fields: self.fields }
    }

    pub fn reverse_within(self, origin: CycleTime, end: CycleTime) -> (r: Self)
        requires
            span_reverse_ok(self.span, origin, end),
        ensures
            r@ == with_span(self@, spec_span_reverse(self.span, origin, end)),
    {
        let span = self.span.reverse_within(origin, end);
        PatternEvent { span, value: self.value, fields: self.fields }
    }
}

/// Whether an event view is not a rest.
pub open spec fn is_sounding(e: PatternEventView) -> bool {
    !(e.value is Rest)
}

/// How a stream carries its values.
#[derive(Debug, Clone, Copy, PartialEq, Eq, Structural)]
pub enum PatternStreamShape {
    Event,
    Control,
    Scalar,
}

/// A flat list of timed events.
#[derive(Debug, PartialEq, Eq, Default)]
pub struct PatternStream {
    pub events: Vec<PatternEvent>,
}

impl View for PatternStream {
    type V = Seq<PatternEventView>;

    open spec fn view(&self) -> Seq<PatternEventView> {
        self.events@.map_values(|e: PatternEvent| e@)
    }
}

// --- stream-level specifications -------------------------------------------

/// Every event's end can be computed.
pub open spec fn ends_ok(evs: Seq<PatternEventView>) -> bool {
    forall|i: int| 0 <= i < evs.len() ==> span_end_ok(#[trigger] evs[i].span)
}

/// The running (earliest start, latest end) over the first `k` events, seeded
/// with the first event; ties keep the value seen first.
pub open spec fn bounds_upto(evs: Seq<PatternEventView>, k: int) -> (Rational, Rational)
    decreases k,
{
    if k <= 0 {
        (evs[0].span.start.0, spec_span_end(evs[0].span).0)
    } else {
        let prev = bounds_upto(evs, k - 1);
        let s = evs[k - 1].span.start.0;
        let e = spec_span_end(evs[k - 1].span).0;
        (if rat_lt(s, prev.0) {
            s
        } else {
            prev.0
        }, if rat_lt(prev.1, e) {
            e
        } else {
            prev.1
        })
    }
}

/// The earliest start and latest end of a non-empty stream.
pub open spec fn spec_bounds(evs: Seq<PatternEventView>) -> Option<(CycleTime, CycleTime)> {
    if evs.len() == 0 {
        None
    } else {
        let b = bounds_upto(evs, evs.len() as int);
        Some((CycleTime(b.0), CycleTime(b.1)))
    }
}

pub open spec fn duration_ok(evs: Seq<PatternEventView>) -> bool {
    &&& ends_ok(evs)
    &&& (spec_bounds(evs) matches Some((s, e)) ==> sub_ok(e.0, s.0))
}

/// Latest end minus earliest start; zero for an empty stream.
pub open spec fn spec_duration(evs: Seq<PatternEventView>) -> CycleDuration {
    match spec_bounds(evs) {
        Some((s, e)) => CycleDuration(spec_sub(e.0, s.0)),
        None => CycleDuration(spec_integer(0)),
    }
}

pub open spec fn shift_ok(evs: Seq<PatternEventView>, offset: CycleDuration) -> bool {
    forall|i: int| 0 <= i < evs.len() ==> span_shift_ok(#[trigger] evs[i].span, offset)
}

/// Every event moved later by `offset`.
pub open spec fn spec_shift_events(evs: Seq<PatternEventView>, offset: CycleDuration) -> Seq<
    PatternEventView,
> {
    evs.map_values(|e: PatternEventView| with_span(e, spec_span_shift(e.span, offset)))
}

pub open spec fn scale_ok(evs: Seq<PatternEventView>, factor: Rational) -> bool {
    &&& ends_ok(evs)
    &&& (spec_bounds(evs) matches Some((origin, _)) ==> forall|i: int|
        0 <= i < evs.len() ==> span_scale_ok(#[trigger] evs[i].span, origin, factor))
}

/// Every event's offset from the stream start and its duration multiplied by `factor`.
pub open spec fn spec_scale_events(evs: Seq<PatternEventView>, factor: Rational) -> Seq<
    PatternEventView,
> {
    match spec_bounds(evs) {
        Some((origin, _)) => evs.map_values(
            |e: PatternEventView| with_span(e, spec_span_scale(e.span, origin, factor)),
        ),
        None => evs,
    }
}

pub open spec fn reverse_ok(evs: Seq<PatternEventView>) -> bool {
    &&& ends_ok(evs)
    &&& (spec_bounds(evs) matches Some((origin, end)) ==> forall|i: int|
        0 <= i < evs.len() ==> span_reverse_ok(#[trigger] evs[i].span, origin, end))
}

/// Every event mirrored inside the stream's bounds.
pub open spec fn spec_reverse_events(evs: Seq<PatternEventView>) -> Seq<PatternEventView> {
    match spec_bounds(evs) {
        Some((origin, end)) => evs.map_values(
            |e: PatternEventView| with_span(e, spec_span_reverse(e.span, origin, end)),
        ),
        None => evs,
    }
}

/// The shift that moves a stream's earliest start to zero.
pub open spec fn origin_offset(origin: CycleTime) -> CycleDuration {
    CycleDuration(spec_sub(spec_integer(0), origin.0))
}

pub open spec fn normalize_ok(evs: Seq<PatternEventView>) -> bool {
    &&& ends_ok(evs)
    &&& (spec_bounds(evs) matches Some((origin, _)) ==> sub_ok(spec_integer(0), origin.0)
        && shift_ok(evs, origin_offset(origin)))
}

/// The stream moved so that it starts at cycle zero.
pub open spec fn spec_normalize(evs: Seq<PatternEventView>) -> Seq<PatternEventView> {
    match spec_bounds(evs) {
        Some((origin, _)) => spec_shift_events(evs, origin_offset(origin)),
        None => evs,
    }
}

pub open spec fn chain_ok(left: Seq<PatternEventView>, right: Seq<PatternEventView>) -> bool {
    &&& duration_ok(left)
    &&& normalize_ok(left)
    &&& normalize_ok(right)
    &&& shift_ok(spec_normalize(right), spec_duration(left))
}

/// `left` from cycle zero, then `right` starting where `left`'s length ends.
pub open spec fn spec_chain(left: Seq<PatternEventView>, right: Seq<PatternEventView>) -> Seq<
    PatternEventView,
> {
    spec_normalize(left) + spec_shift_events(spec_normalize(right), spec_duration(left))
}

/// `factor` is above zero.
pub open spec fn rat_positive(factor: Rational) -> bool {
    rat_lt(spec_integer(0), factor)
}

pub open spec fn fast_ok(evs: Seq<PatternEventView>, factor: Rational) -> bool {
    rat_positive(factor) ==> super::rational::fits(factor.denominator as int) && scale_ok(
        evs,
        super::rational::spec_div(spec_integer(1), factor),
    )
}

/// The stream played `factor` times faster; unchanged when `factor <= 0`.
pub open spec fn spec_fast(evs: Seq<PatternEventView>, factor: Rational) -> Seq<PatternEventView> {
    if rat_positive(factor) {
        spec_scale_events(evs, super::rational::spec_div(spec_integer(1), factor))
    } else {
        evs
    }
}

/// Event views of several streams, one after another.
pub open spec fn spec_layer(streams: Seq<PatternStream>) -> Seq<PatternEventView> {
    streams.map_values(|s: PatternStream| s@).flatten()
}

proof fn lemma_view_push(v: Seq<PatternEvent>, e: PatternEvent)
    ensures
        v.push(e).map_values(|x: PatternEvent| x@) == v.map_values(|x: PatternEvent| x@).push(
            e@,
        ),
{
    assert(v.push(e).map_values(|x: PatternEvent| x@) =~= v.map_values(|x: PatternEvent| x@).push(
        e@,
    ));
}

impl PatternStream {
    pub fn new(events: Vec<PatternEvent>) -> (r: Self)
        ensures
            r.events == events,
    {
        PatternStream { events }
    }

    /// The earliest start and latest end over all events; `None` when empty.
    pub fn bounds(&self) -> (r: Option<(CycleTime, CycleTime)>)
        requires
            ends_ok(self@),
        ensures
            r == spec_bounds(self@),
    {
        let n = self.events.len();
        if n == 0 {
            return None;
        }
        let ghost evs = self@;
        proof {
            assert(evs[0] == self.events@[0]@);
            assert(span_end_ok(evs[0].span));
        }
        let first = &self.events[0];
        let mut min_start = first.span.start.0;
        let mut max_end = first.span.end().0;
        let mut i: usize = 0;
        while i < n
            invariant
                n == self.events@.len(),
                evs == self@,
                ends_ok(evs),
                evs.len() > 0,
                i <= n,
                (min_start, max_end) == bounds_upto(evs, i as int),
            decreases n - i,
        {
            let event = &self.events[i];
            proof {
                assert(evs[i as int] == event@);
                assert(span_end_ok(evs[i as int].span));
            }
            if event.span.start.0.lt(min_start) {
                min_start = event.span.start.0;
            }
            let end = event.span.end().0;
            if max_end.lt(end) {
                max_end = end;
            }
            i = i + 1;
        }
        Some((CycleTime(min_start), CycleTime(max_end)))
    }

    /// Latest end minus earliest start; zero for an empty stream.
    pub fn duration(&self) -> (r: CycleDuration)
        requires
            duration_ok(self@),
        ensures
            r == spec_duration(self@),
    {
        match self.bounds() {
            Some((start, end)) => CycleDuration(end.0.minus(start.0)),
            None => CycleDuration(Rational::zero()),
        }
    }

    /// A copy of the stream with every event moved later by `offset`.
    pub fn shift_by(&self, offset: CycleDuration) -> (r: Self)
        requires
            shift_ok(self@, offset),
        ensures
            r@ == spec_shift_events(self@, offset),
    {
        let ghost evs = self@;
        let mut events: Vec<PatternEvent> = Vec::new();
        let n = self.events.len();
        let mut i: usize = 0;
        while i < n
            invariant
                n == self.events@.len(),
                evs == self@,
                shift_ok(evs, offset),
                i <= n,
                events@.map_values(|e: PatternEvent| e@) == spec_shift_events(evs, offset).take(
                    i as int,
                ),
            decreases n - i,
        {
            let event = self.events[i].clone();
            proof {
                assert(evs[i as int] == self.events@[i as int]@);
                assert(span_shift_ok(evs[i as int].span, offset));
            }
            let moved = event.shift_by(offset);
            let ghost before = events@;
            let ghost mv = moved@;
            events.push(moved);
            proof {
                lemma_view_push(before, events@.last());
                assert(spec_shift_events(evs, offset).take(i + 1) =~= spec_shift_events(
                    evs,
                    offset,
                ).take(i as int).push(mv));
            }
            i = i + 1;
        }
        proof {
            assert(spec_shift_events(evs, offset).take(n as int) =~= spec_shift_events(
                evs,
                offset,
            ));
        }
        PatternStream { events }
    }

    /// All events of all streams, stream after stream.
    pub fn layer(streams: Vec<PatternStream>) -> (r: Self)
        ensures
            r@ == spec_layer(streams@),
    {
        let ghost all = streams@;
        let mut rest = streams;
        let mut events: Vec<PatternEvent> = Vec::new();
        proof {
            assert(all.subrange(0, 0).map_values(|s: PatternStream| s@).flatten() =~= Seq::<
                PatternEventView,
            >::empty());
            assert(all.skip(0) =~= all);
        }
        let ghost k: int = 0;
        while rest.len() > 0
            invariant
                0 <= k <= all.len(),
                rest@ == all.skip(k),
                events@.map_values(|e: PatternEvent| e@) + spec_layer(rest@) == spec_layer(all),
            decreases rest@.len(),
        {
            let ghost old_rest = rest@;
            let mut s = rest.remove(0);
            proof {
                assert(old_rest.map_values(|x: PatternStream| x@).drop_first() =~= rest@.map_values(
                    |x: PatternStream| x@,
                ));
                assert(old_rest.map_values(|x: PatternStream| x@).first() == s@);
                k = k + 1;
                assert(rest@ =~= all.skip(k));
            }
            let ghost before = events@;
            let ghost sv = s@;
            events.append(&mut s.events);
            proof {
                assert(events@.map_values(|e: PatternEvent| e@) =~= before.map_values(
                    |e: PatternEvent| e@,
                ) + sv);
            }
        }
        proof {
            assert(spec_layer(rest@) =~= Seq::<PatternEventView>::empty());
            assert(events@.map_values(|e: PatternEvent| e@) + Seq::<PatternEventView>::empty()
                =~= events@.map_values(|e: PatternEvent| e@));
        }
        PatternStream { events }
    }

    /// `left` moved to start at zero, followed by `right` moved to start where
    /// `left`'s length ends.
    pub fn chain(left: PatternStream, right: PatternStream) -> (r: Self)
        requires
            chain_ok(left@, right@),
        ensures
            r@ == spec_chain(left@, right@),
    {
        let offset = left.duration();
        let mut events = left.normalize_to_origin().events;
        let shifted = right.normalize_to_origin().shift_by(offset);
        let ghost before = events@;
        let mut tail = shifted.events;
        let ghost tv = tail@;
        events.append(&mut tail);
        proof {
            assert(events@.map_values(|e: PatternEvent| e@) =~= before.map_values(
                |e: PatternEvent| e@,
            ) + tv.map_values(|e: PatternEvent| e@));
        }
        PatternStream { events }
    }

    /// Every event mirrored inside the stream's bounds.
    pub fn reverse(self) -> (r: Self)
        requires
            reverse_ok(self@),
        ensures
            r@ == spec_reverse_events(self@),
    {
        let (origin, end) = match self.bounds() {
            Some(b) => b,
            None => return self,
        };
        let ghost evs = self@;
        let mut events: Vec<PatternEvent> = Vec::new();
        let n = self.events.len();
        let mut i: usize = 0;
        while i < n
            invariant
                n == self.events@.len(),
                evs == self@,
                spec_bounds(evs) == Some((origin, end)),
                reverse_ok(evs),
                i <= n,
                events@.map_values(|e: PatternEvent| e@) == spec_reverse_events(evs).take(
                    i as int,
                ),
            decreases n - i,
        {
            let event = self.events[i].clone();
            proof {
                assert(evs[i as int] == self.events@[i as int]@);
                assert(span_reverse_ok(evs[i as int].span, origin, end));
            }
            let moved = event.reverse_within(origin, end);
            let ghost before = events@;
            let ghost mv = moved@;
            events.push(moved);
            proof {
                lemma_view_push(before, events@.last());
                assert(spec_reverse_events(evs).take(i + 1) =~= spec_reverse_events(evs).take(
                    i as int,
                ).push(mv));
            }
            i = i + 1;
        }
        proof {
            assert(spec_reverse_events(evs).take(n as int) =~= spec_reverse_events(evs));
        }
        PatternStream { events }
    }

    /// The stream played `factor` times slower (offsets and durations scaled up).
    pub fn slow(self, factor: Rational) -> (r: Self)
        requires
            scale_ok(self@, factor),
        ensures
            r@ == spec_scale_events(self@, factor),
    {
        self.scale_relative(factor)
    }

    /// The stream played `factor` times faster; a factor `<= 0` leaves it unchanged.
    pub fn fast(self, factor: Rational) -> (r: Self)
        requires
            fast_ok(self@, factor),
        ensures
            r@ == spec_fast(self@, factor),
    {
        if factor.le(Rational::zero()) {
            return self;
        }
        proof {
            assert(0 * factor.denominator == 0);
            assert(factor.numerator * 1 == factor.numerator);
            assert(1 * factor.denominator == factor.denominator);
            assert(1 * factor.numerator == factor.numerator);
        }
        let inverse = Rational::one().divided_by(factor);
        self.scale_relative(inverse)
    }

    fn scale_relative(self, factor: Rational) -> (r: Self)
        requires
            scale_ok(self@, factor),
        ensures
            r@ == spec_scale_events(self@, factor),
    {
        let (origin, _end) = match self.bounds() {
            Some(b) => b,
            None => return self,
        };
        let ghost evs = self@;
        let mut events: Vec<PatternEvent> = Vec::new();
        let n = self.events.len();
        let mut i: usize = 0;
        while i < n
            invariant
                n == self.events@.len(),
                evs == self@,
                spec_bounds(evs) matches Some((o, _)) && o == origin,
                scale_ok(evs, factor),
                i <= n,
                events@.map_values(|e: PatternEvent| e@) == spec_scale_events(evs, factor).take(
                    i as int,
                ),
            decreases n - i,
        {
            let event = self.events[i].clone();
            proof {
                assert(evs[i as int] == self.events@[i as int]@);
                assert(span_scale_ok(evs[i as int].span, origin, factor));
            }
            let moved = event.scale_relative_to(origin, factor);
            let ghost before = events@;
            let ghost mv = moved@;
            events.push(moved);
            proof {
                lemma_view_push(before, events@.last());
                assert(spec_scale_events(evs, factor).take(i + 1) =~= spec_scale_events(
                    evs,
                    factor,
                ).take(i as int).push(mv));
            }
            i = i + 1;
        }
        proof {
            assert(spec_scale_events(evs, factor).take(n as int) =~= spec_scale_events(
                evs,
                factor,
            ));
        }
        PatternStream { events }
    }

    /// The stream moved so that its earliest start is cycle zero.
    pub fn normalize_to_origin(self) -> (r: Self)
        requires
            normalize_ok(self@),
        ensures
            r@ == spec_normalize(self@),
    {
        let (origin, _end) = match self.bounds() {
            Some(b) => b,
            None => return self,
        };
        self.shift_by(CycleDuration(Rational::zero().minus(origin.0)))
    }

    /// The stream without its rest events, in the same order.
    pub fn without_rests(self) -> (r: Self)
        ensures
            r@ == self@.filter(|e: PatternEventView| is_sounding(e)),
    {
        let ghost evs = self@;
        let mut events: Vec<PatternEvent> = Vec::new();
        let mut rest = self.events;
        let ghost all = rest@;
        let n = rest.len();
        let mut i: usize = 0;
        while i < n
            invariant
                n == rest@.len(),
                rest@ == all,
                evs == all.map_values(|e: PatternEvent| e@),
                i <= n,
                events@.map_values(|e: PatternEvent| e@) == evs.take(i as int).filter(
                    |e: PatternEventView| is_sounding(e),
                ),
            decreases n - i,
        {
            proof {
                assert(evs.take(i + 1).drop_last() =~= evs.take(i as int));
                assert(evs.take(i + 1).last() == rest@[i as int]@);
                reveal_with_fuel(Seq::filter, 1);
            }
            if !rest[i].value.is_rest() {
                let e = rest[i].clone();
                let ghost before = events@;
                events.push(e);
                proof {
                    lemma_view_push(before, events@.last());
                }
            }
            i = i + 1;
        }
        proof {
            assert(evs.take(n as int) =~= evs);
        }
        PatternStream { events }
    }
}

impl Clone for PatternStream {
    fn clone(&self) -> (r: Self)
        ensures
            r@ == self@,
    {
        let mut events: Vec<PatternEvent> = Vec::new();
        let n = self.events.len();
        let mut i: usize = 0;
        while i < n
            invariant
                n == self.events@.len(),
                i <= n,
                events@.map_values(|e: PatternEvent| e@) == self@.take(i as int),
            decreases n - i,
        {
            let e = self.events[i].clone();
            let ghost before = events@;
            events.push(e);
            proof {
                lemma_view_push(before, events@.last());
                assert(self@.take(i + 1) =~= self@.take(i as int).push(self.events@[i as int]@));
            }
            i = i + 1;
        }
        proof {
            assert(self@.take(n as int) =~= self@);
        }
        PatternStream { events }
    }
}

/// Which control a control event drives.
#[derive(Debug, PartialEq, Eq)]
pub enum ControlKeyIr {
    Gate,
    Gain,
    PostGain,
    Pan,
    Pitch,
    PitchBend,
    PlaybackRate,
    PlaybackStart,
    PlaybackEnd,
    Reverse,
    Attack,
    Decay,
    Sustain,
    Release,
    LowPassCutoff,
    LowPassResonance,
    HighPassCutoff,
    HighPassResonance,
    ReverbSend,
    DelaySend,
    Select(String),
    Custom(String),
}

impl Clone for ControlKeyIr {
    fn clone(&self) -> (r: Self)
        ensures
            r == *self,
    {
        match self {
            ControlKeyIr::Gate => ControlKeyIr::Gate,
            ControlKeyIr::Gain => ControlKeyIr::Gain,
            ControlKeyIr::PostGain => ControlKeyIr::PostGain,
            ControlKeyIr::Pan => ControlKeyIr::Pan,
            ControlKeyIr::Pitch => ControlKeyIr::Pitch,
            ControlKeyIr::PitchBend => ControlKeyIr::PitchBend,
            ControlKeyIr::PlaybackRate => ControlKeyIr::PlaybackRate,
            ControlKeyIr::PlaybackStart => ControlKeyIr::PlaybackStart,
            ControlKeyIr::PlaybackEnd => ControlKeyIr::PlaybackEnd,
            ControlKeyIr::Reverse => ControlKeyIr::Reverse,
            ControlKeyIr::Attack => ControlKeyIr::Attack,
            ControlKeyIr::Decay => ControlKeyIr::Decay,
            ControlKeyIr::Sustain => ControlKeyIr::Sustain,
            ControlKeyIr::Release => ControlKeyIr::Release,
            ControlKeyIr::LowPassCutoff => ControlKeyIr::LowPassCutoff,
            ControlKeyIr::LowPassResonance => ControlKeyIr::LowPassResonance,
            ControlKeyIr::HighPassCutoff => ControlKeyIr::HighPassCutoff,
            ControlKeyIr::HighPassResonance => ControlKeyIr::HighPassResonance,
            ControlKeyIr::ReverbSend => ControlKeyIr::ReverbSend,
            ControlKeyIr::DelaySend => ControlKeyIr::DelaySend,
            ControlKeyIr::Select(v) => ControlKeyIr::Select(v.clone()),
            ControlKeyIr::Custom(v) => ControlKeyIr::Custom(v.clone()),
        }
    }
}

/// The snake-case name of a control key.
pub open spec fn spec_control_key_name(k: ControlKeyIr) -> Seq<char> {
    match k {
        ControlKeyIr::Gate => "gate"@,
        ControlKeyIr::Gain => "gain"@,
        ControlKeyIr::PostGain => "post_gain"@,
        ControlKeyIr::Pan => "pan"@,
        ControlKeyIr::Pitch => "pitch"@,
        ControlKeyIr::PitchBend => "pitch_bend"@,
        ControlKeyIr::PlaybackRate => "playback_rate"@,
        ControlKeyIr::PlaybackStart => "playback_start"@,
        ControlKeyIr::PlaybackEnd => "playback_end"@,
        ControlKeyIr::Reverse => "reverse"@,
        ControlKeyIr::Attack => "attack"@,
        ControlKeyIr::Decay => "decay"@,
        ControlKeyIr::Sustain => "sustain"@,
        ControlKeyIr::Release => "release"@,
        ControlKeyIr::LowPassCutoff => "low_pass_cutoff"@,
        ControlKeyIr::LowPassResonance => "low_pass_resonance"@,
        ControlKeyIr::HighPassCutoff => "high_pass_cutoff"@,
        ControlKeyIr::HighPassResonance => "high_pass_resonance"@,
        ControlKeyIr::ReverbSend => "reverb_send"@,
        ControlKeyIr::DelaySend => "delay_send"@,
        ControlKeyIr::Select(_) => "select"@,
        ControlKeyIr::Custom(_) => "custom"@,
    }
}

impl ControlKeyIr {
    pub fn as_str(&self) -> (r: &str)
        ensures
            r@ == spec_control_key_name(*self),
    {
        match self {
            ControlKeyIr::Gate => "gate",
            ControlKeyIr::Gain => "gain",
            ControlKeyIr::PostGain => "post_gain",
            ControlKeyIr::Pan => "pan",
            ControlKeyIr::Pitch => "pitch",
            ControlKeyIr::PitchBend => "pitch_bend",
            ControlKeyIr::PlaybackRate => "playback_rate",
            ControlKeyIr::PlaybackStart => "playback_start",
            ControlKeyIr::PlaybackEnd => "playback_end",
            ControlKeyIr::Reverse => "reverse",
            ControlKeyIr::Attack => "attack",
            ControlKeyIr::Decay => "decay",
            ControlKeyIr::Sustain => "sustain",
            ControlKeyIr::Release => "release",
            ControlKeyIr::LowPassCutoff => "low_pass_cutoff",
            ControlKeyIr::LowPassResonance => "low_pass_resonance",
            ControlKeyIr::HighPassCutoff => "high_pass_cutoff",
            ControlKeyIr::HighPassResonance => "high_pass_resonance",
            ControlKeyIr::ReverbSend => "reverb_send",
            ControlKeyIr::DelaySend => "delay_send",
            ControlKeyIr::Select(_) => "select",
            ControlKeyIr::Custom(_) => "custom",
        }
    }
}

/// The value a control event sets.
#[derive(Debug, PartialEq, Eq)]
pub enum ControlValueIr {
    Rational { value: Rational },
    Bool { value: bool },
    Symbol { value: String },
}

impl Clone for ControlValueIr {
    fn clone(&self) -> (r: Self)
        ensures
            r == *self,
    {
        match self {
            ControlValueIr::Rational { value } => ControlValueIr::Rational { value: *value },
            ControlValueIr::Bool { value } => ControlValueIr::Bool { value: *value },
            ControlValueIr::Symbol { value } => ControlValueIr::Symbol { value: value.clone() },
        }
    }
}

/// A control value read as a number: rationals as themselves, `true`/`false`
/// as 1/0, symbols as 0.
pub open spec fn spec_rational_fallback(v: ControlValueIr) -> Rational {
    match v {
        ControlValueIr::Rational { value } => value,
        ControlValueIr::Bool { value } => if value {
            spec_integer(1)
        } else {
            spec_integer(0)
        },
        ControlValueIr::Symbol { .. } => spec_integer(0),
    }
}

/// A control value as the matching event-field value.
pub open spec fn spec_field_value_of(v: ControlValueIr) -> FieldValueView {
    match v {
        ControlValueIr::Rational { value } => FieldValueView::Rational { value },
        ControlValueIr::Bool { value } => FieldValueView::Bool { value },
        ControlValueIr::Symbol { value } => FieldValueView::Symbol { value: value@ },
    }
}

impl ControlValueIr {
    pub fn rational(value: Rational) -> (r: Self)
        ensures
            r == (ControlValueIr::Rational { value }),
    {
        ControlValueIr::Rational { value }
    }

    pub fn bool(value: bool) -> (r: Self)
        ensures
            r == (ControlValueIr::Bool { value }),
    {
        ControlValueIr::Bool { value }
    }

    pub fn symbol(value: &str) -> (r: Self)
        ensures
            r matches ControlValueIr::Symbol { value: v } && v@ == value@,
    {
        ControlValueIr::Symbol { value: owned(value) }
    }

    pub fn as_rational_fallback(&self) -> (r: Rational)
        ensures
            r == spec_rational_fallback(*self),
    {
        match self {
            ControlValueIr::Rational { value } => *value,
            ControlValueIr::Bool { value } => {
                if *value {
                    Rational::one()
                } else {
                    Rational::zero()
                }
            },
            ControlValueIr::Symbol { .. } => Rational::zero(),
        }
    }

    pub fn into_field_value(self) -> (r: FieldValue)
        ensures
            r@ == spec_field_value_of(self),
    {
        match self {
            ControlValueIr::Rational { value } => FieldValue::Rational { value },
            ControlValueIr::Bool { value } => FieldValue::Bool { value },
            ControlValueIr::Symbol { value } => FieldValue::Symbol { value },
        }
    }
}

/// A control value at a span.
#[derive(Debug, PartialEq, Eq)]
pub struct ControlEvent {
    pub span: CycleSpan,
    pub key: ControlKeyIr,
    pub value: ControlValueIr,
}

impl Clone for ControlEvent {
    fn clone(&self) -> (r: Self)
        ensures
            r == *self,
    {
        ControlEvent { span: self.span, key: self.key.clone(), value: self.value.clone() }
    }
}

impl ControlEvent {
    pub fn new(span: CycleSpan, key: ControlKeyIr, value: ControlValueIr) -> (r: Self)
        ensures
            r == (ControlEvent { span, key, value }),
    {
        ControlEvent { span, key, value }
    }
}

/// The event a control event reads as: a scalar of its numeric fallback,
/// tagged with one custom field naming the key and holding the value.
pub open spec fn spec_control_event_view(c: ControlEvent) -> PatternEventView {
    PatternEventView {
        span: c.span,
        value: EventValueView::Scalar { value: spec_rational_fallback(c.value) },
        fields: seq![
            EventFieldView::Custom {
                key: spec_control_key_name(c.key),
                value: spec_field_value_of(c.value),
            },
        ],
    }
}

/// A scalar value at a span.
#[derive(Debug, Clone, Copy, PartialEq, Eq, Structural)]
pub struct ScalarEvent {
    pub span: CycleSpan,
    pub value: Rational,
}

impl ScalarEvent {
    pub fn new(span: CycleSpan, value: Rational) -> (r: Self)
        ensures
            r == (ScalarEvent { span, value }),
    {
        ScalarEvent { span, value }
    }
}

/// The event a scalar event reads as: a scalar value with no fields.
pub open spec fn spec_scalar_event_view(e: ScalarEvent) -> PatternEventView {
    PatternEventView {
        span: e.span,
        value: EventValueView::Scalar { value: e.value },
        fields: Seq::empty(),
    }
}

impl PatternEvent {
    /// The pattern event a control event reads as.
    pub fn from_control(control: ControlEvent) -> (r: Self)
        ensures
            r@ == spec_control_event_view(control),
    {
        let key = owned(control.key.as_str());
        let fallback = control.value.as_rational_fallback();
        let mut fields: Vec<EventField> = Vec::new();
        fields.push(EventField::Custom { key, value: control.value.into_field_value() });
        let r = PatternEvent {
            span: control.span,
            value: EventValue::Scalar { value: fallback },
            fields,
        };
        proof {
            assert(r@.fields =~= spec_control_event_view(control).fields);
        }
        r
    }

    /// The pattern event a scalar event reads as.
    pub fn from_scalar(value: ScalarEvent) -> (r: Self)
        ensures
            r@ == spec_scalar_event_view(value),
    {
        let r = PatternEvent {
            span: value.span,
            value: EventValue::Scalar { value: value.value },
            fields: Vec::new(),
        };
        proof {
            assert(r@.fields =~= Seq::<EventFieldView>::empty());
        }
        r
    }
}

/// A stream of control events.
#[derive(Debug, Clone, PartialEq, Eq, Default)]
pub struct ControlStream {
    pub controls: Vec<ControlEvent>,
}

impl ControlStream {
    pub fn new(controls: Vec<ControlEvent>) -> (r: Self)
        ensures
            r.controls == controls,
    {
        ControlStream { controls }
    }

    /// The controls read as pattern events, in order.
    pub fn to_pattern_stream(&self) -> (r: PatternStream)
        ensures
            r@ == self.controls@.map_values(|c: ControlEvent| spec_control_event_view(c)),
    {
        let ghost target = self.controls@.map_values(|c: ControlEvent| spec_control_event_view(c));
        let mut events: Vec<PatternEvent> = Vec::new();
        let n = self.controls.len();
        let mut i: usize = 0;
        while i < n
            invariant
                n == self.controls@.len(),
                target == self.controls@.map_values(|c: ControlEvent| spec_control_event_view(c)),
                i <= n,
                events@.map_values(|e: PatternEvent| e@) == target.take(i as int),
            decreases n - i,
        {
            let e = PatternEvent::from_control(self.controls[i].clone());
            let ghost before = events@;
            events.push(e);
            proof {
                lemma_view_push(before, events@.last());
                assert(target.take(i + 1) =~= target.take(i as int).push(events@.last()@));
            }
            i = i + 1;
        }
        proof {
            assert(target.take(n as int) =~= target);
        }
        PatternStream { events }
    }
}

/// A stream of scalar events.
#[derive(Debug, Clone, PartialEq, Eq, Default)]
pub struct ScalarStream {
    pub values: Vec<ScalarEvent>,
}

impl ScalarStream {
    pub fn new(values: Vec<ScalarEvent>) -> (r: Self)
        ensures
            r.values == values,
    {
        ScalarStream { values }
    }

    /// The scalars read as pattern events, in order.
    pub fn to_pattern_stream(&self) -> (r: PatternStream)
        ensures
            r@ == self.values@.map_values(|v: ScalarEvent| spec_scalar_event_view(v)),
    {
        let ghost target = self.values@.map_values(|v: ScalarEvent| spec_scalar_event_view(v));
        let mut events: Vec<PatternEvent> = Vec::new();
        let n = self.values.len();
        let mut i: usize = 0;
        while i < n
            invariant
                n == self.values@.len(),
                target == self.values@.map_values(|v: ScalarEvent| spec_scalar_event_view(v)),
                i <= n,
                events@.map_values(|e: PatternEvent| e@) == target.take(i as int),
            decreases n - i,
        {
            let e = PatternEvent::from_scalar(self.values[i]);
            let ghost before = events@;
            events.push(e);
            proof {
                lemma_view_push(before, events@.last());
                assert(target.take(i + 1) =~= target.take(i as int).push(events@.last()@));
            }
            i = i + 1;
        }
        proof {
            assert(target.take(n as int) =~= target);
        }
        PatternStream { events }
    }
}

/// One weighted alternative of a weighted choice.
#[derive(Debug, PartialEq, Eq)]
pub struct WeightedPatternIr {
    pub weight: Rational,
    pub node: Box<PatternNodeIr>,
}

impl WeightedPatternIr {
    /// A weighted alternative; the weight must be above zero.
    pub fn new(weight: Rational, node: PatternNodeIr) -> (r: Self)
        requires
            rat_positive(weight),
        ensures
            r.weight == weight,
            *r.node == node,
    {
        WeightedPatternIr { weight, node: Box::new(node) }
    }
}

/// What makes two events duplicates.
#[derive(Debug, Clone, Copy, PartialEq, Eq, Structural)]
pub enum DeduplicateKeyIr {
    Lifecycle,
    WholeSpanAndValue,
    StartAndValue,
}

/// Which duplicate survives.
#[derive(Debug, Clone, Copy, PartialEq, Eq, Structural)]
pub enum DeduplicateWinnerIr {
    First,
    Last,
}

#[derive(Debug, Clone, Copy, PartialEq, Eq, Structural)]
pub struct DeduplicatePolicyIr {
    pub key: DeduplicateKeyIr,
    pub winner: DeduplicateWinnerIr,
}

impl DeduplicatePolicyIr {
    pub fn whole_span_and_value() -> (r: Self)
        ensures
            r == (DeduplicatePolicyIr {
                key: DeduplicateKeyIr::WholeSpanAndValue,
                winner: DeduplicateWinnerIr::First,
            }),
    {
        DeduplicatePolicyIr {
            key: DeduplicateKeyIr::WholeSpanAndValue,
            winner: DeduplicateWinnerIr::First,
        }
    }
}

/// When two prioritised events conflict.
#[derive(Debug, Clone, Copy, PartialEq, Eq, Structural)]
pub enum PriorityConflictIr {
    SameWholeStartAndValue,
    SameWholeSpanAndValue,
    WholeSpanOverlap,
}

#[derive(Debug, Clone, Copy, PartialEq, Eq, Structural)]
pub struct PriorityMergePolicyIr {
    pub conflict: PriorityConflictIr,
}

impl PriorityMergePolicyIr {
    pub fn whole_span_overlap() -> (r: Self)
        ensures
            r == (PriorityMergePolicyIr { conflict: PriorityConflictIr::WholeSpanOverlap }),
    {
        PriorityMergePolicyIr { conflict: PriorityConflictIr::WholeSpanOverlap }
    }
}

/// A node of the structured pattern tree.
#[derive(Debug, PartialEq, Eq)]
pub enum PatternNodeIr {
    EventStream(EventStreamNodeIr),
    ControlStream(ControlStreamNodeIr),
    ScalarStream(ScalarStreamNodeIr),
    Merge { children: Vec<PatternNodeIr> },
    CycleRoute { children: Vec<PatternNodeIr> },
    CycleSlots { children: Vec<PatternNodeIr> },
    TimeScale { inner: Box<PatternNodeIr>, factor: Rational },
    Shift { inner: Box<PatternNodeIr>, offset: CycleDuration },
    ReflectCycle { inner: Box<PatternNodeIr> },
    Degrade { inner: Box<PatternNodeIr>, keep_probability: Rational, seed: u64 },
    Deduplicate { inner: Box<PatternNodeIr>, policy: DeduplicatePolicyIr },
    PriorityMerge { children: Vec<PatternNodeIr>, policy: PriorityMergePolicyIr },
    WeightedChoice { options: Vec<WeightedPatternIr>, seed: u64 },
    MaskClip { source: Box<PatternNodeIr>, mask: Box<PatternNodeIr> },
}

#[derive(Debug, Clone, PartialEq, Eq)]
pub struct EventStreamNodeIr {
    pub stream: PatternStream,
}

#[derive(Debug, Clone, PartialEq, Eq)]
pub struct ControlStreamNodeIr {
    pub stream: ControlStream,
}

#[derive(Debug, Clone, PartialEq, Eq)]
pub struct ScalarStreamNodeIr {
    pub stream: ScalarStream,
}

/// The events a node stands for in a flat preview: streams as themselves,
/// combinators as their children one after another, time transforms applied,
/// and structural nodes (degrade, deduplicate, mask) as their source.
pub open spec fn spec_flatten(n: PatternNodeIr) -> Seq<PatternEventView>
    decreases n,
{
    match n {
        PatternNodeIr::EventStream(node) => node.stream@,
        PatternNodeIr::ControlStream(node) => node.stream.controls@.map_values(
            |c: ControlEvent| spec_control_event_view(c),
        ),
        PatternNodeIr::ScalarStream(node) => node.stream.values@.map_values(
            |v: ScalarEvent| spec_scalar_event_view(v),
        ),
        PatternNodeIr::Merge { children } => spec_flatten_all(children@),
        PatternNodeIr::CycleRoute { children } => spec_flatten_all(children@),
        PatternNodeIr::CycleSlots { children } => spec_flatten_all(children@),
        PatternNodeIr::TimeScale { inner, factor } => if rat_le(factor, spec_integer(0)) {
            spec_flatten(*inner)
        } else {
            spec_scale_events(spec_flatten(*inner), factor)
        },
        PatternNodeIr::Shift { inner, offset } => spec_shift_events(spec_flatten(*inner), offset),
        PatternNodeIr::ReflectCycle { inner } => spec_reverse_events(spec_flatten(*inner)),
        PatternNodeIr::Degrade { inner, .. } => spec_flatten(*inner),
        PatternNodeIr::Deduplicate { inner, .. } => spec_flatten(*inner),
        PatternNodeIr::PriorityMerge { children, .. } => spec_flatten_all(children@),
        PatternNodeIr::WeightedChoice { options, .. } => spec_flatten_options(options@),
        PatternNodeIr::MaskClip { source, .. } => spec_flatten(*source),
    }
}

/// The flattened children, one after another.
pub open spec fn spec_flatten_all(cs: Seq<PatternNodeIr>) -> Seq<PatternEventView>
    decreases cs,
{
    if cs.len() == 0 {
        Seq::empty()
    } else {
        spec_flatten(cs[0]) + spec_flatten_all(cs.subrange(1, cs.len() as int))
    }
}

/// The flattened alternatives, one after another.
pub open spec fn spec_flatten_options(os: Seq<WeightedPatternIr>) -> Seq<PatternEventView>
    decreases os,
{
    if os.len() == 0 {
        Seq::empty()
    } else {
        spec_flatten(*os[0].node) + spec_flatten_options(os.subrange(1, os.len() as int))
    }
}

/// Every time transform in the tree stays inside the `i64` range.
pub open spec fn flatten_ok(n: PatternNodeIr) -> bool
    decreases n,
{
    match n {
        PatternNodeIr::EventStream(_) => true,
        PatternNodeIr::ControlStream(_) => true,
        PatternNodeIr::ScalarStream(_) => true,
        PatternNodeIr::Merge { children } => all_flatten_ok(children@),
        PatternNodeIr::CycleRoute { children } => all_flatten_ok(children@),
        PatternNodeIr::CycleSlots { children } => all_flatten_ok(children@),
        PatternNodeIr::TimeScale { inner, factor } => flatten_ok(*inner) && (!rat_le(
            factor,
            spec_integer(0),
        ) ==> scale_ok(spec_flatten(*inner), factor)),
        PatternNodeIr::Shift { inner, offset } => flatten_ok(*inner) && shift_ok(
            spec_flatten(*inner),
            offset,
        ),
        PatternNodeIr::ReflectCycle { inner } => flatten_ok(*inner) && reverse_ok(
            spec_flatten(*inner),
        ),
        PatternNodeIr::Degrade { inner, .. } => flatten_ok(*inner),
        PatternNodeIr::Deduplicate { inner, .. } => flatten_ok(*inner),
        PatternNodeIr::PriorityMerge { children, .. } => all_flatten_ok(children@),
        PatternNodeIr::WeightedChoice { options, .. } => all_options_ok(options@),
        PatternNodeIr::MaskClip { source, .. } => flatten_ok(*source),
    }
}

pub open spec fn all_flatten_ok(cs: Seq<PatternNodeIr>) -> bool
    decreases cs,
{
    if cs.len() == 0 {
        true
    } else {
        flatten_ok(cs[0]) && all_flatten_ok(cs.subrange(1, cs.len() as int))
    }
}

pub open spec fn all_options_ok(os: Seq<WeightedPatternIr>) -> bool
    decreases os,
{
    if os.len() == 0 {
        true
    } else {
        flatten_ok(*os[0].node) && all_options_ok(os.subrange(1, os.len() as int))
    }
}

proof fn lemma_flatten_all_split(cs: Seq<PatternNodeIr>, i: int)
    requires
        0 <= i < cs.len(),
    ensures
        spec_flatten_all(cs.take(i + 1)) == spec_flatten_all(cs.take(i)) + spec_flatten(cs[i]),
        all_flatten_ok(cs.take(i + 1)) == (all_flatten_ok(cs.take(i)) && flatten_ok(cs[i])),
    decreases i,
{
    let t = cs.take(i + 1);
    assert(t[0] == cs[0]);
    if i == 0 {
        assert(t.subrange(1, t.len() as int) =~= Seq::<PatternNodeIr>::empty());
        assert(cs.take(0) =~= Seq::<PatternNodeIr>::empty());
    } else {
        let rest = cs.subrange(1, cs.len() as int);
        assert(t.subrange(1, t.len() as int) =~= rest.take(i));
        assert(cs.take(i).subrange(1, i) =~= rest.take(i - 1));
        assert(cs.take(i)[0] == cs[0]);
        lemma_flatten_all_split(rest, i - 1);
        assert(rest[i - 1] == cs[i]);
    }
}

proof fn lemma_flatten_options_split(os: Seq<WeightedPatternIr>, i: int)
    requires
        0 <= i < os.len(),
    ensures
        spec_flatten_options(os.take(i + 1)) == spec_flatten_options(os.take(i)) + spec_flatten(
            *os[i].node,
        ),
        all_options_ok(os.take(i + 1)) == (all_options_ok(os.take(i)) && flatten_ok(*os[i].node)),
    decreases i,
{
    let t = os.take(i + 1);
    assert(t[0] == os[0]);
    if i == 0 {
        assert(t.subrange(1, t.len() as int) =~= Seq::<WeightedPatternIr>::empty());
        assert(os.take(0) =~= Seq::<WeightedPatternIr>::empty());
    } else {
        let rest = os.subrange(1, os.len() as int);
        assert(t.subrange(1, t.len() as int) =~= rest.take(i));
        assert(os.take(i).subrange(1, i) =~= rest.take(i - 1));
        assert(os.take(i)[0] == os[0]);
        lemma_flatten_options_split(rest, i - 1);
        assert(rest[i - 1] == os[i]);
    }
}

proof fn lemma_all_ok_prefix(cs: Seq<PatternNodeIr>, i: int)
    requires
        0 <= i <= cs.len(),
        all_flatten_ok(cs),
    ensures
        all_flatten_ok(cs.take(i)),
    decreases cs.len() - i,
{
    if i < cs.len() {
        lemma_all_ok_prefix(cs, i + 1);
        lemma_flatten_all_split(cs, i);
    } else {
        assert(cs.take(i) =~= cs);
    }
}

proof fn lemma_options_ok_prefix(os: Seq<WeightedPatternIr>, i: int)
    requires
        0 <= i <= os.len(),
        all_options_ok(os),
    ensures
        all_options_ok(os.take(i)),
    decreases os.len() - i,
{
    if i < os.len() {
        lemma_options_ok_prefix(os, i + 1);
        lemma_flatten_options_split(os, i);
    } else {
        assert(os.take(i) =~= os);
    }
}

impl PatternNodeIr {
    pub fn event_stream(stream: PatternStream) -> (r: Self)
        ensures
            r == PatternNodeIr::EventStream(EventStreamNodeIr { stream }),
    {
        PatternNodeIr::EventStream(EventStreamNodeIr { stream })
    }

    pub fn control_stream(stream: ControlStream) -> (r: Self)
        ensures
            r == PatternNodeIr::ControlStream(ControlStreamNodeIr { stream }),
    {
        PatternNodeIr::ControlStream(ControlStreamNodeIr { stream })
    }

    pub fn scalar_stream(stream: ScalarStream) -> (r: Self)
        ensures
            r == PatternNodeIr::ScalarStream(ScalarStreamNodeIr { stream }),
    {
        PatternNodeIr::ScalarStream(ScalarStreamNodeIr { stream })
    }

    pub fn merge(children: Vec<PatternNodeIr>) -> (r: Self)
        ensures
            r == (PatternNodeIr::Merge { children }),
    {
        PatternNodeIr::Merge { children }
    }

    pub fn cycle_route(children: Vec<PatternNodeIr>) -> (r: Self)
        ensures
            r == (PatternNodeIr::CycleRoute { children }),
    {
        PatternNodeIr::CycleRoute { children }
    }

    pub fn cycle_slots(children: Vec<PatternNodeIr>) -> (r: Self)
        ensures
            r == (PatternNodeIr::CycleSlots { children }),
    {
        PatternNodeIr::CycleSlots { children }
    }

    pub fn time_scale(inner: PatternNodeIr, factor: Rational) -> (r: Self)
        ensures
            r == (PatternNodeIr::TimeScale { inner: Box::new(inner), factor }),
    {
        PatternNodeIr::TimeScale { inner: Box::new(inner), factor }
    }

    pub fn shift(inner: PatternNodeIr, offset: CycleDuration) -> (r: Self)
        ensures
            r == (PatternNodeIr::Shift { inner: Box::new(inner), offset }),
    {
        PatternNodeIr::Shift { inner: Box::new(inner), offset }
    }

    pub fn reflect_cycle(inner: PatternNodeIr) -> (r: Self)
        ensures
            r == (PatternNodeIr::ReflectCycle { inner: Box::new(inner) }),
    {
        PatternNodeIr::ReflectCycle { inner: Box::new(inner) }
    }

    pub fn degrade(inner: PatternNodeIr, keep_probability: Rational, seed: u64) -> (r: Self)
        ensures
            r == (PatternNodeIr::Degrade { inner: Box::new(inner), keep_probability, seed }),
    {
        PatternNodeIr::Degrade { inner: Box::new(inner), keep_probability, seed }
    }

    pub fn deduplicate(inner: PatternNodeIr, policy: DeduplicatePolicyIr) -> (r: Self)
        ensures
            r == (PatternNodeIr::Deduplicate { inner: Box::new(inner), policy }),
    {
        PatternNodeIr::Deduplicate { inner: Box::new(inner), policy }
    }

    pub fn priority_merge(children: Vec<PatternNodeIr>, policy: PriorityMergePolicyIr) -> (r:
        Self)
        ensures
            r == (PatternNodeIr::PriorityMerge { children, policy }),
    {
        PatternNodeIr::PriorityMerge { children, policy }
    }

    pub fn weighted_choice(options: Vec<WeightedPatternIr>, seed: u64) -> (r: Self)
        ensures
            r == (PatternNodeIr::WeightedChoice { options, seed }),
    {
        PatternNodeIr::WeightedChoice { options, seed }
    }

    pub fn mask_clip(source: PatternNodeIr, mask: PatternNodeIr) -> (r: Self)
        ensures
            r == (PatternNodeIr::MaskClip { source: Box::new(source), mask: Box::new(mask) }),
    {
        PatternNodeIr::MaskClip { source: Box::new(source), mask: Box::new(mask) }
    }

    /// Control and scalar streams keep their shape; everything else is events.
    pub fn shape(&self) -> (r: PatternStreamShape)
        ensures
            r == (match *self {
                PatternNodeIr::ControlStream(_) => PatternStreamShape::Control,
                PatternNodeIr::ScalarStream(_) => PatternStreamShape::Scalar,
                _ => PatternStreamShape::Event,
            }),
    {
        match self {
            PatternNodeIr::EventStream(_) => PatternStreamShape::Event,
            PatternNodeIr::ControlStream(_) => PatternStreamShape::Control,
            PatternNodeIr::ScalarStream(_) => PatternStreamShape::Scalar,
            _ => PatternStreamShape::Event,
        }
    }

    /// The flat event stream this node stands for.
    pub fn flatten(&self) -> (r: PatternStream)
        requires
            flatten_ok(*self),
        ensures
            r@ == spec_flatten(*self),
        decreases *self,
    {
        match self {
            PatternNodeIr::EventStream(node) => node.stream.clone(),
            PatternNodeIr::ControlStream(node) => node.stream.to_pattern_stream(),
            PatternNodeIr::ScalarStream(node) => node.stream.to_pattern_stream(),
            PatternNodeIr::Merge { children } => Self::flatten_children(children),
            PatternNodeIr::CycleRoute { children } => Self::flatten_children(children),
            PatternNodeIr::CycleSlots { children } => Self::flatten_children(children),
            PatternNodeIr::TimeScale { inner, factor } => {
                if factor.le(Rational::zero()) {
                    inner.flatten()
                } else {
                    inner.flatten().slow(*factor)
                }
            },
            PatternNodeIr::Shift { inner, offset } => inner.flatten().shift_by(*offset),
            PatternNodeIr::ReflectCycle { inner } => inner.flatten().reverse(),
            PatternNodeIr::Degrade { inner, .. } => inner.flatten(),
            PatternNodeIr::Deduplicate { inner, .. } => inner.flatten(),
            PatternNodeIr::PriorityMerge { children, .. } => Self::flatten_children(children),
            PatternNodeIr::WeightedChoice { options, .. } => Self::flatten_options(options),
            PatternNodeIr::MaskClip { source, .. } => source.flatten(),
        }
    }

    fn flatten_children(children: &Vec<PatternNodeIr>) -> (r: PatternStream)
        requires
            all_flatten_ok(children@),
        ensures
            r@ == spec_flatten_all(children@),
        decreases children@,
    {
        let ghost cs = children@;
        let mut events: Vec<PatternEvent> = Vec::new();
        let n = children.len();
        let mut i: usize = 0;
        proof {
            assert(cs.take(0) =~= Seq::<PatternNodeIr>::empty());
        }
        while i < n
            invariant
                n == cs.len(),
                cs == children@,
                all_flatten_ok(cs),
                i <= n,
                events@.map_values(|e: PatternEvent| e@) == spec_flatten_all(cs.take(i as int)),
            decreases n - i,
        {
            proof {
                lemma_all_ok_prefix(cs, i + 1);
                lemma_flatten_all_split(cs, i as int);
                assert(decreases_to!(children@ => cs[i as int]));
            }
            let mut part = children[i].flatten();
            let ghost before = events@;
            let ghost pv = part@;
            events.append(&mut part.events);
            proof {
                assert(events@.map_values(|e: PatternEvent| e@) =~= before.map_values(
                    |e: PatternEvent| e@,
                ) + pv);
            }
            i = i + 1;
        }
        proof {
            assert(cs.take(n as int) =~= cs);
        }
        PatternStream { events }
    }

    fn flatten_options(options: &Vec<WeightedPatternIr>) -> (r: PatternStream)
        requires
            all_options_ok(options@),
        ensures
            r@ == spec_flatten_options(options@),
        decreases options@,
    {
        let ghost os = options@;
        let mut events: Vec<PatternEvent> = Vec::new();
        let n = options.len();
        let mut i: usize = 0;
        proof {
            assert(os.take(0) =~= Seq::<WeightedPatternIr>::empty());
        }
        while i < n
            invariant
                n == os.len(),
                os == options@,
                all_options_ok(os),
                i <= n,
                events@.map_values(|e: PatternEvent| e@) == spec_flatten_options(
                    os.take(i as int),
                ),
            decreases n - i,
        {
            proof {
                lemma_options_ok_prefix(os, i + 1);
                lemma_flatten_options_split(os, i as int);
            }
            let mut part = options[i].node.flatten();
            let ghost before = events@;
            let ghost pv = part@;
            events.append(&mut part.events);
            proof {
                assert(events@.map_values(|e: PatternEvent| e@) =~= before.map_values(
                    |e: PatternEvent| e@,
                ) + pv);
            }
            i = i + 1;
        }
        proof {
            assert(os.take(n as int) =~= os);
        }
        PatternStream { events }
    }
}

/// A compiled output node with its pattern tree.
#[derive(Debug, PartialEq, Eq)]
pub struct PatternOutput {
    pub id: NodeId,
    pub root: PatternNodeIr,
}

impl PatternOutput {
    pub fn new(id: NodeId, root: PatternNodeIr) -> (r: Self)
        ensures
            r == (PatternOutput { id, root }),
    {
        PatternOutput { id, root }
    }

    pub fn shape(&self) -> (r: PatternStreamShape)
        ensures
            r == (match self.root {
                PatternNodeIr::ControlStream(_) => PatternStreamShape::Control,
                PatternNodeIr::ScalarStream(_) => PatternStreamShape::Scalar,
                _ => PatternStreamShape::Event,
            }),
    {
        self.root.shape()
    }

    pub fn events(&self) -> (r: Vec<PatternEvent>)
        requires
            flatten_ok(self.root),
        ensures
            r@.map_values(|e: PatternEvent| e@) == spec_flatten(self.root),
    {
        self.root.flatten().events
    }

    pub fn stream(&self) -> (r: PatternStream)
        requires
            flatten_ok(self.root),
        ensures
            r@ == spec_flatten(self.root),
    {
        self.root.flatten()
    }
}

/// An output's id with its flattened events.
#[derive(Debug, Clone, PartialEq, Eq)]
pub struct FlatPatternOutput {
    pub id: NodeId,
    pub events: Vec<PatternEvent>,
}

/// The compiled program: one pattern tree per output.
#[derive(Debug, PartialEq, Eq, Default)]
pub struct PatternIr {
    pub outputs: Vec<PatternOutput>,
}

impl PatternIr {
    pub fn new(outputs: Vec<PatternOutput>) -> (r: Self)
        ensures
            r.outputs == outputs,
    {
        PatternIr { outputs }
    }

    /// Each output's id with its flattened events, in output order.
    pub fn flat_outputs(&self) -> (r: Vec<FlatPatternOutput>)
        requires
            forall|i: int| 0 <= i < self.outputs@.len() ==> flatten_ok(#[trigger] self.outputs@[i].root),
        ensures
            r@.len() == self.outputs@.len(),
            forall|i: int|
                0 <= i < r@.len() ==> #[trigger] r@[i].id == self.outputs@[i].id && r@[i].events@.map_values(
                    |e: PatternEvent| e@,
                ) == spec_flatten(self.outputs@[i].root),
    {
        let mut r: Vec<FlatPatternOutput> = Vec::new();
        let n = self.outputs.len();
        let mut i: usize = 0;
        while i < n
            invariant
                n == self.outputs@.len(),
                forall|i: int| 0 <= i < self.outputs@.len() ==> flatten_ok(#[trigger] self.outputs@[i].root),
                i <= n,
                r@.len() == i,
                forall|k: int|
                    0 <= k < i ==> #[trigger] r@[k].id == self.outputs@[k].id && r@[k].events@.map_values(
                        |e: PatternEvent| e@,
                    ) == spec_flatten(self.outputs@[k].root),
            decreases n - i,
        {
            let output = &self.outputs[i];
            let events = output.events();
            r.push(FlatPatternOutput { id: output.id.clone(), events });
            i = i + 1;
        }
        r
    }
}

/// Playing a stream `factor` times faster is playing it slower by the
/// inverse of `factor` when `factor` is positive, and leaves it as it is
/// otherwise.
pub proof fn lemma_fast_is_slow_by_inverse(evs: Seq<PatternEventView>, factor: Rational)
    ensures
        rat_positive(factor) ==> spec_fast(evs, factor) == spec_scale_events(
            evs,
            super::rational::spec_div(spec_integer(1), factor),
        ),
        !rat_positive(factor) ==> spec_fast(evs, factor) == evs,
{
}

/// Reversing a stream keeps its number of events and each event's value,
/// fields and duration, in their order; an empty stream stays as it is.
pub proof fn lemma_reverse_keeps_events(evs: Seq<PatternEventView>)
    ensures
        spec_reverse_events(evs).len() == evs.len(),
        forall|i: int|
            0 <= i < evs.len() ==> (#[trigger] spec_reverse_events(evs)[i]).value == evs[i].value
                && spec_reverse_events(evs)[i].fields == evs[i].fields && spec_reverse_events(evs)[i].span.duration
                == evs[i].span.duration,
        evs.len() == 0 ==> spec_reverse_events(evs) == evs,
{
}

} // verus!
