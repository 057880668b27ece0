//! The builder of a column of lists.
use vstd::prelude::*;
use crate::array::{list_rows, monotone, Array};
use crate::builder::dynamic::DynamicArrayBuilder;
use crate::error::{Error, Result};
use crate::event::{Event, EventClass};
use crate::model::{accepted, lemma_advance_depth, open_count, Model, Partial, Shape, Value};

verus! {

/// Where a list builder stands.
#[derive(Debug, Clone, Copy, PartialEq, Eq, Structural)]
pub enum ListArrayBuilderState {
    /// Between two lists.
    Start,
    /// Inside a list, with this number of containers open inside the item
    /// that is being read.
    Value(usize),
}

/// Builds a column of lists: the items of all lists lie one after another
/// in one item builder, and list `i` holds the items from `offsets[i]` up
/// to `offsets[i + 1]`.
#[derive(Debug)]
pub struct ListArrayBuilder<B> {
    pub builder: Box<B>,
    pub offsets: Vec<usize>,
    pub validity: Vec<bool>,
    pub state: ListArrayBuilderState,
    pub finished: bool,
}

impl<B> ListArrayBuilder<B> {
    /// A builder at the start of its first list.
    pub fn new(builder: B) -> (r: Self)
        ensures
            *r.builder == builder,
            r.offsets@ == seq![0usize],
            r.validity@ == Seq::<bool>::empty(),
            r.state == ListArrayBuilderState::Start,
            !r.finished,
    {
        let mut offsets = Vec::new();
        offsets.push(0);
        assert(offsets@ =~= seq![0usize]);
        Self {
            builder: Box::new(builder),
            offsets,
            validity: Vec::new(),
            state: ListArrayBuilderState::Start,
            finished: false,
        }
    }
}

/// Rows do not change where items are appended, and one more offset and
/// validity flag append one row.
pub proof fn lemma_list_rows(
    validity: Seq<bool>,
    offsets: Seq<usize>,
    items: Seq<Value>,
    more: Seq<Value>,
)
    requires
        offsets.len() == validity.len() + 1,
        monotone(offsets),
        offsets.last() <= items.len(),
    ensures
        list_rows(validity, offsets, items + more) == list_rows(validity, offsets, items),
        forall|valid: bool, end: usize|
            offsets.last() <= end <= items.len() ==> #[trigger] list_rows(
                validity.push(valid),
                offsets.push(end),
                items,
            ) == list_rows(validity, offsets, items).push(
                if valid {
                    Value::List(items.subrange(offsets.last() as int, end as int))
                } else {
                    Value::Null
                },
            ),
{
    assert forall|i: int| 0 <= i < validity.len() implies list_rows(
        validity,
        offsets,
        items + more,
    )[i] == list_rows(validity, offsets, items)[i] by {
        assert(offsets[i + 1] <= offsets.last());
        assert(offsets[i] <= offsets[i + 1]);
        assert((items + more).subrange(offsets[i] as int, offsets[i + 1] as int)
            =~= items.subrange(offsets[i] as int, offsets[i + 1] as int));
    }
    assert(list_rows(validity, offsets, items + more) =~= list_rows(validity, offsets, items));
    assert forall|valid: bool, end: usize| offsets.last() <= end <= items.len() implies
        #[trigger] list_rows(validity.push(valid), offsets.push(end), items) == list_rows(
        validity,
        offsets,
        items,
    ).push(
        if valid {
            Value::List(items.subrange(offsets.last() as int, end as int))
        } else {
            Value::Null
        },
    ) by {
        assert(list_rows(validity.push(valid), offsets.push(end), items) =~= list_rows(
            validity,
            offsets,
            items,
        ).push(
            if valid {
                Value::List(items.subrange(offsets.last() as int, end as int))
            } else {
                Value::Null
            },
        ));
    }
}

impl ListArrayBuilder<DynamicArrayBuilder> {
    /// The grammar of the column.
    pub open spec fn shape(&self) -> Shape
        decreases self,
    {
        Shape::List(Box::new(self.builder.shape()))
    }

    /// The lists that are complete.
    pub open spec fn rows(&self) -> Seq<Value>
        decreases self,
    {
        list_rows(self.validity@, self.offsets@, self.builder.rows())
    }

    /// The list that is open: its complete items are the items beyond the
    /// last offset.
    pub open spec fn partial(&self) -> Option<Partial>
        decreases self,
    {
        match self.state {
            ListArrayBuilderState::Start => None,
            ListArrayBuilderState::Value(depth) => Some(
                Partial::List {
                    done: self.builder.rows().skip(self.offsets@.last() as int),
                    inner: match self.builder.partial() {
                        Some(p) => Some(Box::new(p)),
                        None => None,
                    },
                },
            ),
        }
    }

    /// The rows that are complete, and the value that is open.
    pub open spec fn model(&self) -> Model {
        Model { rows: self.rows(), partial: self.partial() }
    }

    /// There is one offset more than there are lists, the offsets never
    /// decrease, and between two lists the last offset is the number of
    /// items.
    pub open spec fn wf(&self) -> bool
        decreases self,
    {
        &&& self.builder.wf()
        &&& self.shape().height() <= usize::MAX
        &&& self.offsets.len() == self.validity.len() + 1
        &&& monotone(self.offsets@)
        &&& self.offsets@.last() <= self.builder.rows().len()
        &&& match self.state {
            ListArrayBuilderState::Start => {
                &&& self.offsets@.last() == self.builder.rows().len()
                &&& self.builder.partial() is None
            },
            ListArrayBuilderState::Value(depth) => depth == open_count(self.builder.partial()),
        }
    }

    /// The batch is ended: `finish` has marked the builder and every
    /// builder below it, and no column was built since.
    pub open spec fn ended(&self) -> bool
        decreases self,
    {
        self.finished && self.builder.ended()
    }

    /// No more containers are open than the shape nests.
    pub proof fn lemma_open_bounded(&self)
        requires
            self.wf(),
        ensures
            open_count(self.partial()) <= self.shape().height(),
        decreases self,
    {
        reveal_with_fuel(open_count, 2);
        self.builder.lemma_open_bounded();
    }

    /// Whether the builder is between two lists.
    pub fn idle(&self) -> (r: bool)
        ensures
            r == (self.partial() is None),
    {
        matches!(self.state, ListArrayBuilderState::Start)
    }

    /// Reads one event.
    ///
    /// `StartList` opens a list at the current number of items; every event
    /// up to the matching `EndList` belongs to an item; `EndList` records
    /// the number of items as the end of the list.
    pub fn accept(&mut self, event: &Event) -> (r: Result<()>)
        requires
            old(self).wf(),
        ensures
            final(self).wf(),
            final(self).shape() == old(self).shape(),
            final(self).finished == old(self).finished,
            accepted(old(self).shape(), old(self).model(), event@, r, final(self).model()),
        decreases *old(self),
    {
        let ghost before = *self;
        proof {
            lemma_list_rows(
                self.validity@,
                self.offsets@,
                self.builder.rows(),
                Seq::<Value>::empty(),
            );
        }
        match self.state {
            ListArrayBuilderState::Start => match event {
                Event::StartList => {
                    self.state = ListArrayBuilderState::Value(0);
                    assert(self.builder.rows().skip(self.offsets@.last() as int) =~= Seq::<
                        Value,
                    >::empty());
                    Ok(())
                },
                Event::Null | Event::Default => {
                    let end = self.offsets[self.offsets.len() - 1];
                    self.offsets.push(end);
                    self.validity.push(matches!(event, Event::Default));
                    assert(self.builder.rows().subrange(end as int, end as int) =~= Seq::<
                        Value,
                    >::empty());
                    Ok(())
                },
                Event::EndList | Event::EndStruct | Event::EndTuple | Event::EndMap => Err(
                    Error::ProtocolViolation,
                ),
                _ => Err(Error::TypeMismatch),
            },
            ListArrayBuilderState::Value(depth) => {
                if matches!(event, Event::EndList) && self.builder.idle() {
                    let end = self.builder.len();
                    self.offsets.push(end);
                    self.validity.push(true);
                    self.state = ListArrayBuilderState::Start;
                    assert(self.builder.rows().skip(before.offsets@.last() as int)
                        =~= self.builder.rows().subrange(
                        before.offsets@.last() as int,
                        end as int,
                    ));
                    return Ok(());
                }
                let class = event.class();
                proof {
                    lemma_advance_depth(
                        before.builder.shape(),
                        before.builder.partial(),
                        event@,
                    );
                }
                match self.builder.accept(event) {
                    Ok(()) => {},
                    Err(e) => {
                        return Err(e);
                    },
                }
                proof {
                    self.builder.lemma_open_bounded();
                    let start = before.offsets@.last() as int;
                    if self.builder.rows() != before.builder.rows() {
                        let v = self.builder.rows().last();
                        assert(self.builder.rows() =~= before.builder.rows() + seq![v]);
                        lemma_list_rows(
                            self.validity@,
                            self.offsets@,
                            before.builder.rows(),
                            seq![v],
                        );
                        assert(self.builder.rows().skip(start) =~= before.builder.rows().skip(
                            start,
                        ).push(v));
                    }
                }
                self.state = match class {
                    EventClass::Start => ListArrayBuilderState::Value(depth + 1),
                    EventClass::End => ListArrayBuilderState::Value(depth - 1),
                    _ => ListArrayBuilderState::Value(depth),
                };
                Ok(())
            },
        }
    }

    /// Ends the batch, and that of the items: fails with
    /// `ProtocolViolation` where a list is open.
    pub fn finish(&mut self) -> (r: Result<()>)
        requires
            old(self).wf(),
        ensures
            final(self).wf(),
            final(self).shape() == old(self).shape(),
            final(self).model() == old(self).model(),
            r is Ok <==> old(self).partial() is None,
            r is Err ==> r == Err::<(), Error>(Error::ProtocolViolation) && final(self).finished
                == old(self).finished,
            r is Ok ==> final(self).ended(),
        decreases *old(self),
    {
        if !matches!(self.state, ListArrayBuilderState::Start) {
            return Err(Error::ProtocolViolation);
        }
        let _ = self.builder.finish();
        self.finished = true;
        Ok(())
    }

    /// Hands out the column built so far and starts a new, empty one. No
    /// value may be open.
    pub fn build_array(&mut self) -> (a: Array)
        requires
            old(self).wf(),
            old(self).partial() is None,
        ensures
            a.wf(),
            a.fits(old(self).shape()),
            a.rows() == old(self).rows(),
            final(self).wf(),
            final(self).shape() == old(self).shape(),
            final(self).rows() == Seq::<Value>::empty(),
            final(self).partial() is None,
        decreases *old(self),
    {
        let items = self.builder.build_array();
        let mut validity = Vec::new();
        let mut offsets = Vec::new();
        offsets.push(0);
        std::mem::swap(&mut validity, &mut self.validity);
        std::mem::swap(&mut offsets, &mut self.offsets);
        self.finished = false;
        let a = Array::List { validity, offsets, items: Box::new(items) };
        assert(self.rows() =~= Seq::<Value>::empty());
        a
    }
}

} // verus!
