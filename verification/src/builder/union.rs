//! The builder of a column of tagged unions.
use vstd::prelude::*;
use crate::array::{lemma_columns, lemma_columns_fit, Array};
use crate::builder::dynamic::{build_columns, finish_all, DynamicArrayBuilder};
use crate::builder::tuple::FieldMeta;
use crate::error::{Error, Result};
use crate::event::{Event, EventClass};
use crate::model::{
    accepted, lemma_advance_depth, lemma_fields_height, open_count, Model, Named, Partial, Shape,
    Value,
};

verus! {

/// Where a union builder stands.
#[derive(Debug, Clone, Copy, PartialEq, Eq, Structural)]
pub enum UnionArrayBuilderState {
    /// Between two values.
    Start,
    /// After the discriminant of the variant with this index, with this
    /// number of containers open inside its value.
    Value(usize, usize),
}

/// Builds a column of tagged unions: one builder per variant. Row `i` is
/// the variant `types[i]`, and its value is row `offsets[i]` of that
/// variant's builder.
#[derive(Debug)]
pub struct UnionArrayBuilder<B> {
    pub field_meta: Vec<FieldMeta>,
    pub builders: Vec<B>,
    pub types: Vec<usize>,
    pub offsets: Vec<usize>,
    pub state: UnionArrayBuilderState,
    pub finished: bool,
}

impl<B> UnionArrayBuilder<B> {
    /// A builder at the start of its first value.
    pub fn new(field_meta: Vec<FieldMeta>, builders: Vec<B>) -> (r: Self)
        ensures
            r.field_meta == field_meta,
            r.builders == builders,
            r.types@ == Seq::<usize>::empty(),
            r.offsets@ == Seq::<usize>::empty(),
            r.state == UnionArrayBuilderState::Start,
            !r.finished,
    {
        Self {
            field_meta,
            builders,
            types: Vec::new(),
            offsets: Vec::new(),
            state: UnionArrayBuilderState::Start,
            finished: false,
        }
    }
}

impl UnionArrayBuilder<DynamicArrayBuilder> {
    /// The variants, with their names.
    pub open spec fn fields(&self) -> Seq<Named>
        decreases self, 0nat,
    {
        Seq::new(
            self.builders.len() as nat,
            |j: int|
                Named {
                    name: self.field_meta[j].name@,
                    shape: if 0 <= j < self.builders.len() {
                        self.builders[j].shape()
                    } else {
                        Shape::Null
                    },
                },
        )
    }

    /// The grammar of the column.
    pub open spec fn shape(&self) -> Shape
        decreases self, 1nat,
    {
        Shape::Union(self.fields())
    }

    /// The value in row `i` of the variant with index `j`.
    pub open spec fn cell(&self, j: int, i: int) -> Value
        decreases self, 0nat,
    {
        if 0 <= j < self.builders.len() {
            self.builders[j].rows()[i]
        } else {
            Value::Null
        }
    }

    /// The values that are complete.
    pub open spec fn rows(&self) -> Seq<Value>
        decreases self, 1nat,
    {
        Seq::new(
            self.types.len() as nat,
            |i: int|
                Value::Variant(
                    self.types[i] as int,
                    Box::new(self.cell(self.types[i] as int, self.offsets[i] as int)),
                ),
        )
    }

    /// The value that is open.
    pub open spec fn partial(&self) -> Option<Partial>
        decreases self, 1nat,
    {
        match self.state {
            UnionArrayBuilderState::Start => None,
            UnionArrayBuilderState::Value(variant, depth) => Some(
                Partial::Variant {
                    index: variant as int,
                    inner: if variant < self.builders.len() {
                        match self.builders[variant as int].partial() {
                            Some(p) => Some(Box::new(p)),
                            None => None,
                        }
                    } else {
                        None
                    },
                },
            ),
        }
    }

    /// The rows that are complete, and the value that is open.
    pub open spec fn model(&self) -> Model {
        Model { rows: self.rows(), partial: self.partial() }
    }

    /// There is a variant; every row names a variant and a row that the
    /// variant's builder holds.
    pub open spec fn wf(&self) -> bool
        decreases self, 1nat,
    {
        &&& self.field_meta.len() == self.builders.len()
        &&& self.builders.len() > 0
        &&& self.shape().height() <= usize::MAX
        &&& self.types.len() == self.offsets.len()
        &&& forall|j: int|
            0 <= j < self.builders.len() ==> (#[trigger] self.builders[j]).wf()
        &&& forall|i: int|
            0 <= i < self.types.len() ==> {
                &&& (#[trigger] self.types[i]) < self.builders.len()
                &&& self.offsets[i] < self.builders[self.types[i] as int].rows().len()
            }
        &&& match self.state {
            UnionArrayBuilderState::Start => forall|j: int|
                0 <= j < self.builders.len() ==> (#[trigger] self.builders[j]).partial() is None,
            UnionArrayBuilderState::Value(variant, depth) => {
                &&& variant < self.builders.len()
                &&& forall|j: int|
                    0 <= j < self.builders.len() && j != variant ==> (
                    #[trigger] self.builders[j]).partial() is None
                &&& depth == open_count(self.builders[variant as int].partial())
            },
        }
    }

    /// The batch is ended: `finish` has marked the builder and every
    /// builder below it, and no column was built since.
    pub open spec fn ended(&self) -> bool
        decreases self,
    {
        &&& self.finished
        &&& forall|j: int|
            0 <= j < self.builders.len() ==> (#[trigger] self.builders[j]).ended()
    }

    /// No more containers are open than the shape nests.
    pub proof fn lemma_open_bounded(&self)
        requires
            self.wf(),
        ensures
            open_count(self.partial()) <= self.shape().height(),
        decreases self,
    {
        reveal_with_fuel(open_count, 2);
        match self.state {
            UnionArrayBuilderState::Value(variant, depth) => {
                self.builders[variant as int].lemma_open_bounded();
                lemma_fields_height(self.fields(), variant as int);
            },
            _ => {},
        }
    }

    /// Whether the builder is between two values.
    pub fn idle(&self) -> (r: bool)
        ensures
            r == (self.partial() is None),
    {
        matches!(self.state, UnionArrayBuilderState::Start)
    }

    /// Where one variant's builder gained rows and the others are as they
    /// were, the rows of the union are as they were.
    pub proof fn lemma_kept(&self, before: &Self, variant: int)
        requires
            before.wf(),
            self.builders.len() == before.builders.len(),
            self.types@ == before.types@,
            self.offsets@ == before.offsets@,
            0 <= variant < self.builders.len(),
            forall|j: int|
                0 <= j < self.builders.len() && j != variant ==> (#[trigger] self.builders[j])
                    == before.builders[j],
            before.builders[variant].rows().is_prefix_of(self.builders[variant].rows()),
        ensures
            self.rows() == before.rows(),
    {
        assert forall|i: int| 0 <= i < self.types.len() implies self.rows()[i]
            == before.rows()[i] by {
            let t = before.types[i] as int;
            assert(before.offsets[i] < before.builders[t].rows().len());
            if t != variant {
                assert(self.builders[t] == before.builders[t]);
            }
        }
        assert(self.rows() =~= before.rows());
    }

    /// Reads one event.
    ///
    /// `Variant` selects the builder that receives the value that follows;
    /// when that value is complete, the row records the variant and where
    /// its value lies. `Default` stands for the zero of the first variant.
    /// An absent value has no place in a union.
    pub fn accept(&mut self, event: &Event) -> (r: Result<()>)
        requires
            old(self).wf(),
        ensures
            final(self).wf(),
            final(self).shape() == old(self).shape(),
            final(self).finished == old(self).finished,
            accepted(old(self).shape(), old(self).model(), event@, r, final(self).model()),
        decreases *old(self),
    {
        let n = self.builders.len();
        let ghost before = *self;
        let (variant, depth, class) = match self.state {
            UnionArrayBuilderState::Start => match event {
                Event::Variant(_, index) => {
                    if *index < n {
                        self.state = UnionArrayBuilderState::Value(*index, 0);
                        proof {
                            assert(self.fields() =~= before.fields());
                            assert(self.builders[*index as int].rows().is_prefix_of(
                                self.builders[*index as int].rows(),
                            ));
                            self.lemma_kept(&before, *index as int);
                        }
                        return Ok(());
                    } else {
                        return Err(Error::TypeMismatch);
                    }
                },
                Event::Default => (0, 0, EventClass::Value),
                Event::EndList | Event::EndStruct | Event::EndTuple | Event::EndMap => {
                    return Err(Error::ProtocolViolation);
                },
                _ => {
                    return Err(Error::TypeMismatch);
                },
            },
            UnionArrayBuilderState::Value(variant, depth) => (variant, depth, event.class()),
        };
        proof {
            lemma_advance_depth(
                before.builders[variant as int].shape(),
                before.builders[variant as int].partial(),
                event@,
            );
            assert(before.fields()[variant as int].shape == before.builders[variant as int].shape());
        }
        let row = self.builders[variant].len();
        match self.builders[variant].accept(event) {
            Ok(()) => {},
            Err(e) => {
                proof {
                    assert(self.fields() =~= before.fields());
                    assert(self.builders[variant as int].rows().is_prefix_of(
                        self.builders[variant as int].rows(),
                    ));
                    self.lemma_kept(&before, variant as int);
                }
                return Err(e);
            },
        }
        let done = match class {
            EventClass::Start => {
                proof {
                    self.builders[variant as int].lemma_open_bounded();
                    lemma_fields_height(before.fields(), variant as int);
                }
                self.state = UnionArrayBuilderState::Value(variant, depth + 1);
                false
            },
            EventClass::End => if depth == 1 {
                true
            } else {
                self.state = UnionArrayBuilderState::Value(variant, depth - 1);
                false
            },
            EventClass::Value => depth == 0,
            EventClass::Marker => false,
        };
        proof {
            assert(self.fields() =~= before.fields());
        }
        if done {
            let ghost middle = *self;
            self.types.push(variant);
            self.offsets.push(row);
            self.state = UnionArrayBuilderState::Start;
            proof {
                let grown = Self {
                    types: before.types,
                    offsets: before.offsets,
                    state: before.state,
                    ..*self
                };
                assert(before.builders[variant as int].rows().is_prefix_of(
                    grown.builders[variant as int].rows(),
                ));
                grown.lemma_kept(&before, variant as int);
                assert(self.fields() =~= before.fields());
                assert(self.rows() =~= before.rows().push(
                    Value::Variant(
                        variant as int,
                        Box::new(self.builders[variant as int].rows().last()),
                    ),
                ));
            }
        } else {
            proof {
                self.lemma_kept(&before, variant as int);
            }
        }
        Ok(())
    }

    /// Ends the batch, and that of every variant: fails with
    /// `ProtocolViolation` where a value is open.
    pub fn finish(&mut self) -> (r: Result<()>)
        requires
            old(self).wf(),
        ensures
            final(self).wf(),
            final(self).shape() == old(self).shape(),
            final(self).model() == old(self).model(),
            r is Ok <==> old(self).partial() is None,
            r is Err ==> r == Err::<(), Error>(Error::ProtocolViolation) && final(self).finished
                == old(self).finished,
            r is Ok ==> final(self).ended(),
        decreases *old(self),
    {
        if !matches!(self.state, UnionArrayBuilderState::Start) {
            return Err(Error::ProtocolViolation);
        }
        let ghost before = *self;
        finish_all(&mut self.builders);
        self.finished = true;
        proof {
            assert(self.fields() =~= before.fields());
            assert forall|i: int| 0 <= i < self.types.len() implies self.rows()[i]
                == before.rows()[i] by {
                assert(before.types[i] < before.builders.len());
            }
            assert(self.rows() =~= before.rows());
        }
        Ok(())
    }

    /// Hands out the column built so far and starts a new, empty one. No
    /// value may be open.
    pub fn build_array(&mut self) -> (a: Array)
        requires
            old(self).wf(),
            old(self).partial() is None,
        ensures
            a.wf(),
            a.fits(old(self).shape()),
            a.rows() == old(self).rows(),
            final(self).wf(),
            final(self).shape() == old(self).shape(),
            final(self).rows() == Seq::<Value>::empty(),
            final(self).partial() is None,
        decreases *old(self),
    {
        let ghost before = *self;
        let columns = build_columns(&mut self.builders);
        let mut types = Vec::new();
        let mut slots = Vec::new();
        std::mem::swap(&mut types, &mut self.types);
        std::mem::swap(&mut slots, &mut self.offsets);
        self.finished = false;
        let a = Array::Union { types, slots, columns };
        proof {
            lemma_columns(columns@);
            lemma_columns_fit(columns@, before.fields());
            assert(self.fields() =~= before.fields());
            assert forall|j: int| 0 <= j < columns.len() implies (
            #[trigger] Array::column_rows(columns@)[j]) == before.builders[j].rows() by {
                assert(columns[j].wf());
            }
            assert forall|i: int| 0 <= i < before.types.len() implies a.rows()[i]
                == before.rows()[i] by {
                assert(before.types[i] < before.builders.len());
                assert(Array::column_rows(columns@)[before.types[i] as int]
                    == before.builders[before.types[i] as int].rows());
            }
            assert(a.rows() =~= before.rows());
            assert(self.rows() =~= Seq::<Value>::empty());
        }
        a
    }
}

} // verus!
