//! The builder of a column of tuples.
use vstd::prelude::*;
use crate::array::{lemma_columns, lemma_columns_fit, Array};
use crate::builder::dynamic::{accept_defaults, build_columns, finish_all, DynamicArrayBuilder};
use crate::error::{Error, Result};
use crate::event::{Event, EventClass};
use crate::model::{
    accepted, lemma_advance_depth, lemma_default_values, lemma_fields_height, open_count, Model,
    Named, Partial, Shape, Value,
};

verus! {

/// What a container knows of one of its fields.
#[derive(Debug, Clone, PartialEq, Eq)]
pub struct FieldMeta {
    pub name: String,
    pub nullable: bool,
}

/// Where a tuple builder stands.
#[derive(Debug, Clone, Copy, PartialEq, Eq, Structural)]
pub enum TupleArrayBuilderState {
    /// Between two tuples.
    Start,
    /// Inside a tuple: the index of the element that is awaited or open, and
    /// the number of containers that are open inside it.
    Value(usize, usize),
}

/// Builds a column of tuples: one builder per element, one validity flag
/// per tuple.
#[derive(Debug)]
pub struct TupleStructBuilder<B> {
    pub field_meta: Vec<FieldMeta>,
    pub builders: Vec<B>,
    pub validity: Vec<bool>,
    pub state: TupleArrayBuilderState,
    pub finished: bool,
}

impl<B> TupleStructBuilder<B> {
    /// A builder at the start of its first tuple.
    pub fn new(field_meta: Vec<FieldMeta>, builders: Vec<B>) -> (r: Self)
        ensures
            r.field_meta == field_meta,
            r.builders == builders,
            r.validity@ == Seq::<bool>::empty(),
            r.state == TupleArrayBuilderState::Start,
            !r.finished,
    {
        Self {
            field_meta,
            builders,
            validity: Vec::new(),
            state: TupleArrayBuilderState::Start,
            finished: false,
        }
    }
}

impl TupleStructBuilder<DynamicArrayBuilder> {
    /// The elements, with their names.
    pub open spec fn fields(&self) -> Seq<Named>
        decreases self, 0nat,
    {
        Seq::new(
            self.builders.len() as nat,
            |j: int|
                Named {
                    name: self.field_meta[j].name@,
                    shape: if 0 <= j < self.builders.len() {
                        self.builders[j].shape()
                    } else {
                        Shape::Null
                    },
                },
        )
    }

    /// The grammar of the column.
    pub open spec fn shape(&self) -> Shape
        decreases self, 1nat,
    {
        Shape::Record { keyed: false, fields: self.fields() }
    }

    /// Row `i` of every element.
    pub open spec fn cells(&self, i: int) -> Seq<Value>
        decreases self, 0nat,
    {
        Seq::new(
            self.builders.len() as nat,
            |j: int|
                if 0 <= j < self.builders.len() {
                    self.builders[j].rows()[i]
                } else {
                    Value::Null
                },
        )
    }

    /// The tuples that are complete: an unset validity flag makes the tuple
    /// absent, whatever its elements hold in that row.
    pub open spec fn rows(&self) -> Seq<Value>
        decreases self, 1nat,
    {
        Seq::new(
            self.validity.len() as nat,
            |i: int|
                if self.validity[i] {
                    Value::Record(self.cells(i))
                } else {
                    Value::Null
                },
        )
    }

    /// The tuple that is open: its complete elements are the rows that the
    /// element builders hold beyond the complete tuples.
    pub open spec fn partial(&self) -> Option<Partial>
        decreases self, 1nat,
    {
        match self.state {
            TupleArrayBuilderState::Start => None,
            TupleArrayBuilderState::Value(active, depth) => Some(
                Partial::Record {
                    done: self.cells(self.validity.len() as int).take(active as int),
                    keyed: false,
                    inner: if active < self.builders.len() {
                        match self.builders[active as int].partial() {
                            Some(p) => Some(Box::new(p)),
                            None => None,
                        }
                    } else {
                        None
                    },
                },
            ),
        }
    }

    /// The rows that are complete, and the value that is open.
    pub open spec fn model(&self) -> Model {
        Model { rows: self.rows(), partial: self.partial() }
    }

    /// The element builders are well formed, hold one row per complete
    /// tuple, and the elements before the active one hold one row more.
    pub open spec fn wf(&self) -> bool
        decreases self, 1nat,
    {
        &&& self.field_meta.len() == self.builders.len()
        &&& self.shape().height() <= usize::MAX
        &&& forall|j: int|
            0 <= j < self.builders.len() ==> (#[trigger] self.builders[j]).wf()
        &&& match self.state {
            TupleArrayBuilderState::Start => forall|j: int|
                0 <= j < self.builders.len() ==> {
                    &&& (#[trigger] self.builders[j]).rows().len() == self.validity.len()
                    &&& self.builders[j].partial() is None
                },
            TupleArrayBuilderState::Value(active, depth) => {
                &&& active <= self.builders.len()
                &&& forall|j: int|
                    0 <= j < self.builders.len() ==> {
                        &&& (#[trigger] self.builders[j]).rows().len() == self.validity.len() + (
                        if j < active {
                            1nat
                        } else {
                            0nat
                        })
                        &&& j != active ==> self.builders[j].partial() is None
                    }
                &&& active < self.builders.len() ==> depth == open_count(
                    self.builders[active as int].partial(),
                )
                &&& active == self.builders.len() ==> depth == 0
            },
        }
    }

    /// The batch is ended: `finish` has marked the builder and every
    /// builder below it, and no column was built since.
    pub open spec fn ended(&self) -> bool
        decreases self,
    {
        &&& self.finished
        &&& forall|j: int|
            0 <= j < self.builders.len() ==> (#[trigger] self.builders[j]).ended()
    }

    /// No more containers are open than the shape nests.
    pub proof fn lemma_open_bounded(&self)
        requires
            self.wf(),
        ensures
            open_count(self.partial()) <= self.shape().height(),
        decreases self,
    {
        reveal_with_fuel(open_count, 2);
        match self.state {
            TupleArrayBuilderState::Start => {},
            TupleArrayBuilderState::Value(active, depth) => {
                if active < self.builders.len() {
                    self.builders[active as int].lemma_open_bounded();
                    lemma_fields_height(self.fields(), active as int);
                }
            },
        }
    }

    /// Whether the builder is between two tuples.
    pub fn idle(&self) -> (r: bool)
        ensures
            r == (self.partial() is None),
    {
        matches!(self.state, TupleArrayBuilderState::Start)
    }

    /// Where the element builders keep their first `upto` rows, the tuple
    /// keeps the cells of those rows; where the validity flags are kept as
    /// well, it keeps its rows.
    pub proof fn lemma_kept(&self, before: &Self, upto: int)
        requires
            self.builders.len() == before.builders.len(),
            0 <= upto,
            forall|j: int, i: int|
                0 <= j < self.builders.len() && 0 <= i < upto ==> (
                #[trigger] self.builders[j].rows()[i]) == before.builders[j].rows()[i],
        ensures
            forall|i: int| 0 <= i < upto ==> #[trigger] self.cells(i) == before.cells(i),
            self.validity.len() <= upto && self.validity@ == before.validity@ ==> self.rows()
                == before.rows(),
            before.validity.len() == upto && self.validity.len() == upto + 1 && self.validity@.drop_last()
                == before.validity@ ==> self.rows() == before.rows().push(
                if self.validity@.last() {
                    Value::Record(self.cells(before.validity.len() as int))
                } else {
                    Value::Null
                },
            ),
    {
        assert forall|i: int| 0 <= i < upto implies #[trigger] self.cells(i) == before.cells(
            i,
        ) by {
            assert forall|j: int| 0 <= j < self.builders.len() implies self.cells(i)[j]
                == before.cells(i)[j] by {
                assert(self.builders[j].rows()[i] == before.builders[j].rows()[i]);
            }
            assert(self.cells(i) =~= before.cells(i));
        }
        if self.validity.len() <= upto && self.validity@ == before.validity@ {
            assert forall|i: int| 0 <= i < self.validity.len() implies self.rows()[i]
                == before.rows()[i] by {
                assert(self.cells(i) == before.cells(i));
            }
            assert(self.rows() =~= before.rows());
        }
        if before.validity.len() == upto && self.validity.len() == upto + 1 && self.validity@.drop_last()
            == before.validity@ {
            let pushed = before.rows().push(
                if self.validity@.last() {
                    Value::Record(self.cells(before.validity.len() as int))
                } else {
                    Value::Null
                },
            );
            assert forall|i: int| 0 <= i < self.validity.len() implies self.rows()[i]
                == pushed[i] by {
                if i < before.validity.len() {
                    assert(self.cells(i) == before.cells(i));
                    assert(self.validity@.drop_last()[i] == self.validity@[i]);
                }
            }
            assert(self.rows() =~= pushed);
        }
    }

    /// Reads one event.
    ///
    /// Between two tuples a `StartTuple` opens a tuple, and `Null` or
    /// `Default` stands for a whole tuple: every element then gains its
    /// zero, so that the element columns stay aligned. Inside a tuple the
    /// event belongs to the active element, until `EndTuple` closes the
    /// tuple after the last element.
    pub fn accept(&mut self, event: &Event) -> (r: Result<()>)
        requires
            old(self).wf(),
        ensures
            final(self).wf(),
            final(self).shape() == old(self).shape(),
            final(self).finished == old(self).finished,
            accepted(old(self).shape(), old(self).model(), event@, r, final(self).model()),
        decreases *old(self),
    {
        let n = self.builders.len();
        let ghost before = *self;
        let ghost last = self.validity.len() as int;
        match self.state {
            TupleArrayBuilderState::Start => match event {
                Event::StartTuple => {
                    self.state = TupleArrayBuilderState::Value(0, 0);
                    proof {
                        assert(self.fields() =~= before.fields());
                        self.lemma_kept(&before, last);
                        assert(self.cells(last).take(0) =~= Seq::<Value>::empty());
                    }
                    Ok(())
                },
                Event::Null | Event::Default => {
                    let valid = matches!(event, Event::Default);
                    accept_defaults(&mut self.builders);
                    self.validity.push(valid);
                    proof {
                        assert(self.fields() =~= before.fields());
                        lemma_default_values(before.fields());
                        assert forall|j: int| 0 <= j < n implies self.cells(last)[j]
                            == crate::model::default_values(before.fields())[j] by {
                            assert(before.fields()[j].shape == before.builders[j].shape());
                            assert(self.builders[j].rows() == before.builders[j].rows().push(
                                before.builders[j].shape().default_value(),
                            ));
                        }
                        assert(self.cells(last) =~= crate::model::default_values(
                            before.fields(),
                        ));
                        assert forall|j: int, i: int|
                            0 <= j < self.builders.len() && 0 <= i < last implies (
                        #[trigger] self.builders[j].rows()[i]) == before.builders[j].rows()[i] by {
                            assert(self.builders[j].rows() == before.builders[j].rows().push(
                                before.builders[j].shape().default_value(),
                            ));
                        }
                        assert(self.validity@.drop_last() =~= before.validity@);
                        self.lemma_kept(&before, last);
                    }
                    Ok(())
                },
                Event::EndList | Event::EndStruct | Event::EndTuple | Event::EndMap => Err(
                    Error::ProtocolViolation,
                ),
                _ => Err(Error::TypeMismatch),
            },
            TupleArrayBuilderState::Value(active, depth) => {
                let class = event.class();
                if class == EventClass::End && (active == n || self.builders[active].idle()) {
                    if matches!(event, Event::EndTuple) && active == n {
                        self.validity.push(true);
                        self.state = TupleArrayBuilderState::Start;
                        proof {
                            assert(self.fields() =~= before.fields());
                            assert(before.cells(last).take(n as int) =~= before.cells(last));
                            assert(self.validity@.drop_last() =~= before.validity@);
                            self.lemma_kept(&before, last);
                            assert(self.cells(last) =~= before.cells(last));
                        }
                        Ok(())
                    } else {
                        Err(Error::ProtocolViolation)
                    }
                } else if active == n {
                    Err(Error::ProtocolViolation)
                } else {
                    proof {
                        lemma_advance_depth(
                            before.builders[active as int].shape(),
                            before.builders[active as int].partial(),
                            event@,
                        );
                    }
                    match self.builders[active].accept(event) {
                        Ok(()) => {},
                        Err(e) => {
                            proof {
                                assert(self.fields() =~= before.fields());
                                self.lemma_kept(&before, last + 1);
                            }
                            return Err(e);
                        },
                    }
                    proof {
                        self.builders[active as int].lemma_open_bounded();
                        lemma_fields_height(before.fields(), active as int);
                        assert(self.fields() =~= before.fields());
                    }
                    let next = match class {
                        EventClass::Start => TupleArrayBuilderState::Value(active, depth + 1),
                        EventClass::End => if depth == 1 {
                            TupleArrayBuilderState::Value(active + 1, 0)
                        } else {
                            TupleArrayBuilderState::Value(active, depth - 1)
                        },
                        EventClass::Value => if depth == 0 {
                            TupleArrayBuilderState::Value(active + 1, 0)
                        } else {
                            TupleArrayBuilderState::Value(active, depth)
                        },
                        EventClass::Marker => TupleArrayBuilderState::Value(active, depth),
                    };
                    self.state = next;
                    proof {
                        self.lemma_kept(&before, last);
                        let child = self.builders[active as int];
                        if child.partial() is None {
                            assert(self.cells(last).take(active + 1) =~= before.cells(last).take(
                                active as int,
                            ).push(child.rows()[last]));
                        } else {
                            assert(self.cells(last).take(active as int) =~= before.cells(
                                last,
                            ).take(active as int));
                        }
                    }
                    Ok(())
                }
            },
        }
    }

    /// Ends the batch, and that of every element: fails with
    /// `ProtocolViolation` where a tuple is open.
    pub fn finish(&mut self) -> (r: Result<()>)
        requires
            old(self).wf(),
        ensures
            final(self).wf(),
            final(self).shape() == old(self).shape(),
            final(self).model() == old(self).model(),
            r is Ok <==> old(self).partial() is None,
            r is Err ==> r == Err::<(), Error>(Error::ProtocolViolation) && final(self).finished
                == old(self).finished,
            r is Ok ==> final(self).ended(),
        decreases *old(self),
    {
        if !matches!(self.state, TupleArrayBuilderState::Start) {
            return Err(Error::ProtocolViolation);
        }
        let ghost before = *self;
        finish_all(&mut self.builders);
        self.finished = true;
        proof {
            assert(self.fields() =~= before.fields());
            self.lemma_kept(&before, before.validity.len() as int);
        }
        Ok(())
    }

    /// Hands out the column built so far and starts a new, empty one. No
    /// value may be open.
    pub fn build_array(&mut self) -> (a: Array)
        requires
            old(self).wf(),
            old(self).partial() is None,
        ensures
            a.wf(),
            a.fits(old(self).shape()),
            a.rows() == old(self).rows(),
            final(self).wf(),
            final(self).shape() == old(self).shape(),
            final(self).rows() == Seq::<Value>::empty(),
            final(self).partial() is None,
        decreases *old(self),
    {
        let ghost before = *self;
        let columns = build_columns(&mut self.builders);
        let mut validity = Vec::new();
        std::mem::swap(&mut validity, &mut self.validity);
        self.finished = false;
        let a = Array::Struct { validity, columns };
        proof {
            lemma_columns(columns@);
            lemma_columns_fit(columns@, before.fields());
            assert(self.fields() =~= before.fields());
            assert forall|j: int| 0 <= j < columns.len() implies (
            #[trigger] Array::column_rows(columns@)[j]) == before.builders[j].rows() by {
                assert(columns[j].wf());
            }
            assert forall|i: int| 0 <= i < before.validity.len() implies a.rows()[i]
                == before.rows()[i] by {
                assert(Seq::new(
                    columns.len() as nat,
                    |j: int| Array::column_rows(columns@)[j][i],
                ) =~= before.cells(i));
            }
            assert(a.rows() =~= before.rows());
            assert(self.rows() =~= Seq::<Value>::empty());
        }
        a
    }
}

} // verus!
