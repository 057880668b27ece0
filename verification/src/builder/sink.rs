//! The consumer of events: what every builder of a column is.
use vstd::prelude::*;
use crate::builder::dictionary::DictionaryUtf8ArrayBuilder;
use crate::builder::dynamic::DynamicArrayBuilder;
use crate::builder::list::ListArrayBuilder;
use crate::builder::map::MapArrayBuilder;
use crate::builder::primitive::PrimitiveBuilder;
use crate::builder::structs::StructArrayBuilder;
use crate::builder::tuple::TupleStructBuilder;
use crate::builder::union::UnionArrayBuilder;
use crate::error::{Error, Result};
use crate::event::{views, Event, EventView};
use crate::interpreter::Interpreter;
use crate::laws::{lemma_feed_concat, lemma_feed_push};
use crate::model::{accepted, fed, feed, Model, Shape};

verus! {

/// A consumer of the events of one column.
///
/// A sink has the shape of its column and the model of what it has read.
/// It reads one event at a time as `advance` says: the event completes a
/// value, leaves a value open, or is refused; and a refused event leaves
/// the sink as it was.
pub trait EventSink: Sized {
    /// The sink can be given an event.
    spec fn wf(&self) -> bool;

    /// The grammar of the column.
    spec fn shape(&self) -> Shape;

    /// The rows that are complete, and the value that is open.
    spec fn model(&self) -> Model;

    /// Reads one event.
    fn accept(&mut self, event: &Event) -> (r: Result<()>)
        requires
            old(self).wf(),
        ensures
            final(self).wf(),
            final(self).shape() == old(self).shape(),
            accepted(old(self).shape(), old(self).model(), event@, r, final(self).model()),
    ;
}

impl EventSink for PrimitiveBuilder {
    open spec fn wf(&self) -> bool {
        self.wf()
    }

    open spec fn shape(&self) -> Shape {
        self.shape()
    }

    open spec fn model(&self) -> Model {
        self.model()
    }

    fn accept(&mut self, event: &Event) -> (r: Result<()>) {
        self.accept(event)
    }
}

impl EventSink for DictionaryUtf8ArrayBuilder {
    open spec fn wf(&self) -> bool {
        self.wf()
    }

    open spec fn shape(&self) -> Shape {
        self.shape()
    }

    open spec fn model(&self) -> Model {
        self.model()
    }

    fn accept(&mut self, event: &Event) -> (r: Result<()>) {
        self.accept(event)
    }
}

impl EventSink for DynamicArrayBuilder {
    open spec fn wf(&self) -> bool {
        self.wf()
    }

    open spec fn shape(&self) -> Shape {
        self.shape()
    }

    open spec fn model(&self) -> Model {
        self.model()
    }

    fn accept(&mut self, event: &Event) -> (r: Result<()>) {
        self.accept(event)
    }
}

impl EventSink for Interpreter {
    open spec fn wf(&self) -> bool {
        self.wf()
    }

    open spec fn shape(&self) -> Shape {
        self.shape()
    }

    open spec fn model(&self) -> Model {
        self.model()
    }

    fn accept(&mut self, event: &Event) -> (r: Result<()>) {
        self.accept(event)
    }
}

impl EventSink for TupleStructBuilder<DynamicArrayBuilder> {
    open spec fn wf(&self) -> bool {
        self.wf()
    }

    open spec fn shape(&self) -> Shape {
        self.shape()
    }

    open spec fn model(&self) -> Model {
        self.model()
    }

    fn accept(&mut self, event: &Event) -> (r: Result<()>) {
        self.accept(event)
    }
}

impl EventSink for StructArrayBuilder<DynamicArrayBuilder> {
    open spec fn wf(&self) -> bool {
        self.wf()
    }

    open spec fn shape(&self) -> Shape {
        self.shape()
    }

    open spec fn model(&self) -> Model {
        self.model()
    }

    fn accept(&mut self, event: &Event) -> (r: Result<()>) {
        self.accept(event)
    }
}

impl EventSink for ListArrayBuilder<DynamicArrayBuilder> {
    open spec fn wf(&self) -> bool {
        self.wf()
    }

    open spec fn shape(&self) -> Shape {
        self.shape()
    }

    open spec fn model(&self) -> Model {
        self.model()
    }

    fn accept(&mut self, event: &Event) -> (r: Result<()>) {
        self.accept(event)
    }
}

impl EventSink for MapArrayBuilder<DynamicArrayBuilder> {
    open spec fn wf(&self) -> bool {
        self.wf()
    }

    open spec fn shape(&self) -> Shape {
        self.shape()
    }

    open spec fn model(&self) -> Model {
        self.model()
    }

    fn accept(&mut self, event: &Event) -> (r: Result<()>) {
        self.accept(event)
    }
}

impl EventSink for UnionArrayBuilder<DynamicArrayBuilder> {
    open spec fn wf(&self) -> bool {
        self.wf()
    }

    open spec fn shape(&self) -> Shape {
        self.shape()
    }

    open spec fn model(&self) -> Model {
        self.model()
    }

    fn accept(&mut self, event: &Event) -> (r: Result<()>) {
        self.accept(event)
    }
}

/// Gives the sink the events `from..to`, one after another, up to the
/// first that it refuses.
///
/// After a failure the sink holds what it had read before the event that
/// it refused: the batch is to be discarded.
pub fn feed_events<S: EventSink>(
    sink: &mut S,
    events: &Vec<Event>,
    from: usize,
    to: usize,
) -> (r: Result<()>)
    requires
        old(sink).wf(),
        from <= to <= events.len(),
    ensures
        final(sink).wf(),
        final(sink).shape() == old(sink).shape(),
        fed(
            old(sink).shape(),
            old(sink).model(),
            views(events@).subrange(from as int, to as int),
            r,
            final(sink).model(),
        ),
{
    let ghost shape = sink.shape();
    let ghost start = sink.model();
    let mut k = from;
    proof {
        assert(views(events@).subrange(from as int, from as int) =~= Seq::<EventView>::empty());
    }
    while k < to
        invariant
            from <= k <= to <= events.len(),
            sink.wf(),
            sink.shape() == shape,
            shape == old(sink).shape(),
            start == old(sink).model(),
            feed(shape, start, views(events@).subrange(from as int, k as int)) == Ok::<
                Model,
                Error,
            >(sink.model()),
        decreases to - k,
    {
        let ghost read = views(events@).subrange(from as int, k as int);
        proof {
            assert(views(events@).subrange(from as int, k + 1) =~= read.push(events[k as int]@));
            lemma_feed_push(shape, start, read, events[k as int]@);
            let whole = views(events@).subrange(from as int, to as int);
            assert(whole =~= read.push(events[k as int]@) + views(events@).subrange(
                k + 1,
                to as int,
            ));
            lemma_feed_concat(
                shape,
                start,
                read.push(events[k as int]@),
                views(events@).subrange(k + 1, to as int),
            );
        }
        match sink.accept(&events[k]) {
            Ok(()) => {},
            Err(e) => {
                proof {
                    let whole = views(events@).subrange(from as int, to as int);
                    assert(whole.take(k - from) =~= read);
                }
                return Err(e);
            },
        }
        k = k + 1;
    }
    Ok(())
}

} // verus!
