//! Builders of date/time columns that are given as text.
use vstd::prelude::*;
use crate::array::Array;
use crate::builder::primitive::PrimitiveBuilder;
use crate::builder::sink::EventSink;
use crate::datetime::DateTimeForm;
use crate::error::Result;
use crate::event::{Event, IntType};
use crate::model::{accepted, Model, Shape, Value};

verus! {

/// Reads dates and times without a zone as text and stores them, in the
/// builder it wraps, as milliseconds since the epoch.
#[derive(Debug)]
pub struct NaiveDateTimeStrBuilder<B>(pub B);

/// Reads dates and times in UTC as text and stores them, in the builder it
/// wraps, as milliseconds since the epoch.
#[derive(Debug)]
pub struct DateTimeStrBuilder<B>(pub B);

/// Whether the sink can stand behind a date/time builder: it is a column
/// of 64-bit integers.
pub open spec fn holds_millis<B: EventSink>(sink: &B) -> bool {
    sink.wf() && sink.shape() == Shape::Int(IntType::I64) && sink.model().partial is None
}

/// Hands the event to the sink, a string as the milliseconds it stands
/// for in the given form.
fn accept_text<B: EventSink>(form: DateTimeForm, sink: &mut B, event: &Event) -> (r: Result<()>)
    requires
        holds_millis(old(sink)),
    ensures
        holds_millis(final(sink)),
        accepted(Shape::DateText(form), old(sink).model(), event@, r, final(sink).model()),
{
    match event {
        Event::Str(text) => match form.parse(text.as_str()) {
            Ok(millis) => sink.accept(&Event::I64(millis)),
            Err(e) => Err(e),
        },
        _ => sink.accept(event),
    }
}

impl<B: EventSink> EventSink for NaiveDateTimeStrBuilder<B> {
    open spec fn wf(&self) -> bool {
        holds_millis(&self.0)
    }

    open spec fn shape(&self) -> Shape {
        Shape::DateText(DateTimeForm::Naive)
    }

    open spec fn model(&self) -> Model {
        self.0.model()
    }

    /// Reads one event. Text that is no date is an `EncodingError`; every
    /// other event is read as the wrapped sink reads it.
    fn accept(&mut self, event: &Event) -> (r: Result<()>) {
        accept_text(DateTimeForm::Naive, &mut self.0, event)
    }
}

impl<B: EventSink> EventSink for DateTimeStrBuilder<B> {
    open spec fn wf(&self) -> bool {
        holds_millis(&self.0)
    }

    open spec fn shape(&self) -> Shape {
        Shape::DateText(DateTimeForm::Utc)
    }

    open spec fn model(&self) -> Model {
        self.0.model()
    }

    /// Reads one event. Text that is no date is an `EncodingError`; every
    /// other event is read as the wrapped sink reads it.
    fn accept(&mut self, event: &Event) -> (r: Result<()>) {
        accept_text(DateTimeForm::Utc, &mut self.0, event)
    }
}

impl NaiveDateTimeStrBuilder<PrimitiveBuilder> {
    /// The wrapped builder holds 64-bit integers.
    pub open spec fn wf(&self) -> bool {
        self.0.wf() && self.0.shape() == Shape::Int(IntType::I64)
    }

    /// The grammar of the column.
    pub open spec fn shape(&self) -> Shape {
        Shape::DateText(DateTimeForm::Naive)
    }

    /// The rows built so far, as milliseconds since the epoch.
    pub open spec fn rows(&self) -> Seq<Value> {
        self.0.rows()
    }

    /// The rows that are complete, and the value that is open.
    pub open spec fn model(&self) -> Model {
        Model { rows: self.rows(), partial: None }
    }

    /// Reads one event. Text that is no date is an `EncodingError`; every
    /// other event is read as the wrapped builder reads it.
    pub fn accept(&mut self, event: &Event) -> (r: Result<()>)
        requires
            old(self).wf(),
        ensures
            final(self).wf(),
            accepted(old(self).shape(), old(self).model(), event@, r, final(self).model()),
    {
        accept_text(DateTimeForm::Naive, &mut self.0, event)
    }

    /// Hands out the column built so far, as milliseconds since the epoch,
    /// and starts a new, empty one.
    pub fn build_array(&mut self) -> (a: Array)
        requires
            old(self).wf(),
        ensures
            a.wf(),
            a.fits(old(self).shape()),
            a.rows() == old(self).rows(),
            final(self).wf(),
            final(self).rows() == Seq::<Value>::empty(),
    {
        self.0.build_array()
    }
}

impl DateTimeStrBuilder<PrimitiveBuilder> {
    /// The wrapped builder holds 64-bit integers.
    pub open spec fn wf(&self) -> bool {
        self.0.wf() && self.0.shape() == Shape::Int(IntType::I64)
    }

    /// The grammar of the column.
    pub open spec fn shape(&self) -> Shape {
        Shape::DateText(DateTimeForm::Utc)
    }

    /// The rows built so far, as milliseconds since the epoch.
    pub open spec fn rows(&self) -> Seq<Value> {
        self.0.rows()
    }

    /// The rows that are complete, and the value that is open.
    pub open spec fn model(&self) -> Model {
        Model { rows: self.rows(), partial: None }
    }

    /// Reads one event. Text that is no date is an `EncodingError`; every
    /// other event is read as the wrapped builder reads it.
    pub fn accept(&mut self, event: &Event) -> (r: Result<()>)
        requires
            old(self).wf(),
        ensures
            final(self).wf(),
            accepted(old(self).shape(), old(self).model(), event@, r, final(self).model()),
    {
        accept_text(DateTimeForm::Utc, &mut self.0, event)
    }

    /// Hands out the column built so far, as milliseconds since the epoch,
    /// and starts a new, empty one.
    pub fn build_array(&mut self) -> (a: Array)
        requires
            old(self).wf(),
        ensures
            a.wf(),
            a.fits(old(self).shape()),
            a.rows() == old(self).rows(),
            final(self).wf(),
            final(self).rows() == Seq::<Value>::empty(),
    {
        self.0.build_array()
    }
}

} // verus!
