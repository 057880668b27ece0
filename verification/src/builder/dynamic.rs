//! The builder of any column: a closed choice among the builders.
use vstd::prelude::*;
use crate::array::Array;
use crate::builder::chrono::{DateTimeStrBuilder, NaiveDateTimeStrBuilder};
use crate::builder::dictionary::DictionaryUtf8ArrayBuilder;
use crate::builder::list::ListArrayBuilder;
use crate::builder::map::MapArrayBuilder;
use crate::builder::primitive::PrimitiveBuilder;
use crate::builder::structs::StructArrayBuilder;
use crate::builder::tuple::TupleStructBuilder;
use crate::builder::union::UnionArrayBuilder;
use crate::error::{Error, Result};
use crate::interpreter::Interpreter;
use crate::event::Event;
use crate::model::{accepted, open_count, Model, Partial, Shape, Value};

verus! {

/// The builder of one column, whatever its type.
#[derive(Debug)]
pub enum DynamicArrayBuilder {
    Primitive(PrimitiveBuilder),
    Dictionary(DictionaryUtf8ArrayBuilder),
    NaiveDateTimeStr(NaiveDateTimeStrBuilder<PrimitiveBuilder>),
    DateTimeStr(DateTimeStrBuilder<PrimitiveBuilder>),
    Tuple(TupleStructBuilder<DynamicArrayBuilder>),
    Struct(StructArrayBuilder<DynamicArrayBuilder>),
    List(ListArrayBuilder<DynamicArrayBuilder>),
    Mapping(MapArrayBuilder<DynamicArrayBuilder>),
    Union(UnionArrayBuilder<DynamicArrayBuilder>),
    /// Records read by a program.
    Compiled(Interpreter),
}

impl DynamicArrayBuilder {
    /// The buffers of the builder and of all builders below it are
    /// consistent with its state.
    #[verifier::opaque]
    pub open spec fn wf(&self) -> bool
        decreases self,
    {
        match self {
            DynamicArrayBuilder::Primitive(b) => b.wf(),
            DynamicArrayBuilder::Dictionary(b) => b.wf(),
            DynamicArrayBuilder::NaiveDateTimeStr(b) => b.wf(),
            DynamicArrayBuilder::DateTimeStr(b) => b.wf(),
            DynamicArrayBuilder::Tuple(b) => b.wf(),
            DynamicArrayBuilder::Struct(b) => b.wf(),
            DynamicArrayBuilder::List(b) => b.wf(),
            DynamicArrayBuilder::Mapping(b) => b.wf(),
            DynamicArrayBuilder::Union(b) => b.wf(),
            DynamicArrayBuilder::Compiled(b) => b.wf(),
        }
    }

    /// The grammar of the column.
    #[verifier::opaque]
    pub open spec fn shape(&self) -> Shape
        decreases self,
    {
        match self {
            DynamicArrayBuilder::Primitive(b) => b.shape(),
            DynamicArrayBuilder::Dictionary(b) => b.shape(),
            DynamicArrayBuilder::NaiveDateTimeStr(b) => b.shape(),
            DynamicArrayBuilder::DateTimeStr(b) => b.shape(),
            DynamicArrayBuilder::Tuple(b) => b.shape(),
            DynamicArrayBuilder::Struct(b) => b.shape(),
            DynamicArrayBuilder::List(b) => b.shape(),
            DynamicArrayBuilder::Mapping(b) => b.shape(),
            DynamicArrayBuilder::Union(b) => b.shape(),
            DynamicArrayBuilder::Compiled(b) => b.shape(),
        }
    }

    /// The rows that are complete.
    #[verifier::opaque]
    pub open spec fn rows(&self) -> Seq<Value>
        decreases self,
    {
        match self {
            DynamicArrayBuilder::Primitive(b) => b.rows(),
            DynamicArrayBuilder::Dictionary(b) => b.rows(),
            DynamicArrayBuilder::NaiveDateTimeStr(b) => b.rows(),
            DynamicArrayBuilder::DateTimeStr(b) => b.rows(),
            DynamicArrayBuilder::Tuple(b) => b.rows(),
            DynamicArrayBuilder::Struct(b) => b.rows(),
            DynamicArrayBuilder::List(b) => b.rows(),
            DynamicArrayBuilder::Mapping(b) => b.rows(),
            DynamicArrayBuilder::Union(b) => b.rows(),
            DynamicArrayBuilder::Compiled(b) => b.rows(),
        }
    }

    /// The value that is open, if any.
    #[verifier::opaque]
    pub open spec fn partial(&self) -> Option<Partial>
        decreases self,
    {
        match self {
            DynamicArrayBuilder::Primitive(b) => None,
            DynamicArrayBuilder::Dictionary(b) => None,
            DynamicArrayBuilder::NaiveDateTimeStr(b) => None,
            DynamicArrayBuilder::DateTimeStr(b) => None,
            DynamicArrayBuilder::Tuple(b) => b.partial(),
            DynamicArrayBuilder::Struct(b) => b.partial(),
            DynamicArrayBuilder::List(b) => b.partial(),
            DynamicArrayBuilder::Mapping(b) => b.partial(),
            DynamicArrayBuilder::Union(b) => b.partial(),
            DynamicArrayBuilder::Compiled(b) => b.partial(),
        }
    }

    /// The rows that are complete, and the value that is open.
    pub open spec fn model(&self) -> Model {
        Model { rows: self.rows(), partial: self.partial() }
    }

    /// The batch is ended: `finish` has marked every container among the
    /// builder and the builders below it, and no column was built since. A
    /// builder of single events, and an interpreter, keeps no mark.
    #[verifier::opaque]
    pub open spec fn ended(&self) -> bool
        decreases self,
    {
        match self {
            DynamicArrayBuilder::Tuple(b) => b.ended(),
            DynamicArrayBuilder::Struct(b) => b.ended(),
            DynamicArrayBuilder::List(b) => b.ended(),
            DynamicArrayBuilder::Mapping(b) => b.ended(),
            DynamicArrayBuilder::Union(b) => b.ended(),
            _ => true,
        }
    }

    /// What the builder is, in terms of the builder it holds.
    pub proof fn lemma_unfold(&self)
        ensures
            match self {
                DynamicArrayBuilder::Primitive(b) => self.wf() == b.wf() && self.shape()
                    == b.shape() && self.rows() == b.rows() && self.partial() is None,
                DynamicArrayBuilder::Dictionary(b) => self.wf() == b.wf() && self.shape()
                    == b.shape() && self.rows() == b.rows() && self.partial() is None,
                DynamicArrayBuilder::NaiveDateTimeStr(b) => self.wf() == b.wf() && self.shape()
                    == b.shape() && self.rows() == b.rows() && self.partial() is None,
                DynamicArrayBuilder::DateTimeStr(b) => self.wf() == b.wf() && self.shape()
                    == b.shape() && self.rows() == b.rows() && self.partial() is None,
                DynamicArrayBuilder::Tuple(b) => self.wf() == b.wf() && self.shape() == b.shape()
                    && self.rows() == b.rows() && self.partial() == b.partial(),
                DynamicArrayBuilder::Struct(b) => self.wf() == b.wf() && self.shape()
                    == b.shape() && self.rows() == b.rows() && self.partial() == b.partial(),
                DynamicArrayBuilder::List(b) => self.wf() == b.wf() && self.shape() == b.shape()
                    && self.rows() == b.rows() && self.partial() == b.partial(),
                DynamicArrayBuilder::Mapping(b) => self.wf() == b.wf() && self.shape()
                    == b.shape() && self.rows() == b.rows() && self.partial() == b.partial(),
                DynamicArrayBuilder::Union(b) => self.wf() == b.wf() && self.shape() == b.shape()
                    && self.rows() == b.rows() && self.partial() == b.partial(),
                DynamicArrayBuilder::Compiled(b) => self.wf() == b.wf() && self.shape() == b.shape()
                    && self.rows() == b.rows() && self.partial() == b.partial(),
            },
    {
        reveal(DynamicArrayBuilder::wf);
        reveal(DynamicArrayBuilder::shape);
        reveal(DynamicArrayBuilder::rows);
        reveal(DynamicArrayBuilder::partial);
    }

    /// No more containers are open than the shape nests.
    pub proof fn lemma_open_bounded(&self)
        requires
            self.wf(),
        ensures
            open_count(self.partial()) <= self.shape().height(),
        decreases self,
    {
        reveal(DynamicArrayBuilder::wf);
        reveal(DynamicArrayBuilder::shape);
        reveal(DynamicArrayBuilder::rows);
        reveal(DynamicArrayBuilder::partial);
        match self {
            DynamicArrayBuilder::Primitive(b) => {},
            DynamicArrayBuilder::Dictionary(b) => {},
            DynamicArrayBuilder::NaiveDateTimeStr(b) => {},
            DynamicArrayBuilder::DateTimeStr(b) => {},
            DynamicArrayBuilder::Tuple(b) => b.lemma_open_bounded(),
            DynamicArrayBuilder::Struct(b) => b.lemma_open_bounded(),
            DynamicArrayBuilder::List(b) => b.lemma_open_bounded(),
            DynamicArrayBuilder::Mapping(b) => b.lemma_open_bounded(),
            DynamicArrayBuilder::Union(b) => b.lemma_open_bounded(),
            DynamicArrayBuilder::Compiled(b) => b.lemma_open_bounded(),
        }
    }

    /// Whether the builder is between two values.
    pub fn idle(&self) -> (r: bool)
        requires
            self.wf(),
        ensures
            r == (self.partial() is None),
    {
        proof {
            reveal(DynamicArrayBuilder::wf);
            reveal(DynamicArrayBuilder::shape);
            reveal(DynamicArrayBuilder::rows);
            reveal(DynamicArrayBuilder::partial);
        }
        match self {
            DynamicArrayBuilder::Primitive(b) => true,
            DynamicArrayBuilder::Dictionary(b) => true,
            DynamicArrayBuilder::NaiveDateTimeStr(b) => true,
            DynamicArrayBuilder::DateTimeStr(b) => true,
            DynamicArrayBuilder::Tuple(b) => b.idle(),
            DynamicArrayBuilder::Struct(b) => b.idle(),
            DynamicArrayBuilder::List(b) => b.idle(),
            DynamicArrayBuilder::Mapping(b) => b.idle(),
            DynamicArrayBuilder::Union(b) => b.idle(),
            DynamicArrayBuilder::Compiled(b) => b.idle(),
        }
    }

    /// The number of rows that are complete.
    pub fn len(&self) -> (r: usize)
        requires
            self.wf(),
        ensures
            r == self.rows().len(),
    {
        proof {
            reveal(DynamicArrayBuilder::wf);
            reveal(DynamicArrayBuilder::shape);
            reveal(DynamicArrayBuilder::rows);
            reveal(DynamicArrayBuilder::partial);
        }
        match self {
            DynamicArrayBuilder::Primitive(b) => b.validity.len(),
            DynamicArrayBuilder::Dictionary(b) => b.validity.len(),
            DynamicArrayBuilder::NaiveDateTimeStr(b) => b.0.validity.len(),
            DynamicArrayBuilder::DateTimeStr(b) => b.0.validity.len(),
            DynamicArrayBuilder::Tuple(b) => b.validity.len(),
            DynamicArrayBuilder::Struct(b) => b.validity.len(),
            DynamicArrayBuilder::List(b) => b.validity.len(),
            DynamicArrayBuilder::Mapping(b) => b.validity.len(),
            DynamicArrayBuilder::Union(b) => b.types.len(),
            DynamicArrayBuilder::Compiled(b) => b.validity.len(),
        }
    }

    /// Hands out the column built so far and starts a new, empty one. No
    /// value may be open.
    pub fn build_array(&mut self) -> (a: Array)
        requires
            old(self).wf(),
            old(self).partial() is None,
        ensures
            a.wf(),
            a.fits(old(self).shape()),
            a.rows() == old(self).rows(),
            final(self).wf(),
            final(self).shape() == old(self).shape(),
            final(self).rows() == Seq::<Value>::empty(),
            final(self).partial() is None,
        decreases *old(self),
    {
        proof {
            reveal(DynamicArrayBuilder::wf);
            reveal(DynamicArrayBuilder::shape);
            reveal(DynamicArrayBuilder::rows);
            reveal(DynamicArrayBuilder::partial);
        }
        match self {
            DynamicArrayBuilder::Primitive(b) => b.build_array(),
            DynamicArrayBuilder::Dictionary(b) => b.build_array(),
            DynamicArrayBuilder::NaiveDateTimeStr(b) => b.build_array(),
            DynamicArrayBuilder::DateTimeStr(b) => b.build_array(),
            DynamicArrayBuilder::Tuple(b) => b.build_array(),
            DynamicArrayBuilder::Struct(b) => b.build_array(),
            DynamicArrayBuilder::List(b) => b.build_array(),
            DynamicArrayBuilder::Mapping(b) => b.build_array(),
            DynamicArrayBuilder::Union(b) => b.build_array(),
            DynamicArrayBuilder::Compiled(b) => b.build_array(),
        }
    }

    /// Ends the batch: fails with `ProtocolViolation` where a value is
    /// open. The rows are as they were.
    pub fn finish(&mut self) -> (r: Result<()>)
        requires
            old(self).wf(),
        ensures
            final(self).wf(),
            final(self).shape() == old(self).shape(),
            final(self).model() == old(self).model(),
            r is Ok <==> old(self).partial() is None,
            r is Ok ==> final(self).ended(),
            r is Err ==> r == Err::<(), Error>(Error::ProtocolViolation),
        decreases *old(self),
    {
        proof {
            reveal(DynamicArrayBuilder::wf);
            reveal(DynamicArrayBuilder::shape);
            reveal(DynamicArrayBuilder::rows);
            reveal(DynamicArrayBuilder::partial);
            reveal(DynamicArrayBuilder::ended);
        }
        match self {
            DynamicArrayBuilder::Primitive(b) => Ok(()),
            DynamicArrayBuilder::Dictionary(b) => Ok(()),
            DynamicArrayBuilder::NaiveDateTimeStr(b) => Ok(()),
            DynamicArrayBuilder::DateTimeStr(b) => Ok(()),
            DynamicArrayBuilder::Tuple(b) => b.finish(),
            DynamicArrayBuilder::Struct(b) => b.finish(),
            DynamicArrayBuilder::List(b) => b.finish(),
            DynamicArrayBuilder::Mapping(b) => b.finish(),
            DynamicArrayBuilder::Union(b) => b.finish(),
            DynamicArrayBuilder::Compiled(b) => b.finish(),
        }
    }

    /// Reads one event.
    pub fn accept(&mut self, event: &Event) -> (r: Result<()>)
        requires
            old(self).wf(),
        ensures
            final(self).wf(),
            final(self).shape() == old(self).shape(),
            accepted(old(self).shape(), old(self).model(), event@, r, final(self).model()),
        decreases *old(self),
    {
        proof {
            reveal(DynamicArrayBuilder::wf);
            reveal(DynamicArrayBuilder::shape);
            reveal(DynamicArrayBuilder::rows);
            reveal(DynamicArrayBuilder::partial);
        }
        match self {
            DynamicArrayBuilder::Primitive(b) => b.accept(event),
            DynamicArrayBuilder::Dictionary(b) => b.accept(event),
            DynamicArrayBuilder::NaiveDateTimeStr(b) => b.accept(event),
            DynamicArrayBuilder::DateTimeStr(b) => b.accept(event),
            DynamicArrayBuilder::Tuple(b) => b.accept(event),
            DynamicArrayBuilder::Struct(b) => b.accept(event),
            DynamicArrayBuilder::List(b) => b.accept(event),
            DynamicArrayBuilder::Mapping(b) => b.accept(event),
            DynamicArrayBuilder::Union(b) => b.accept(event),
            DynamicArrayBuilder::Compiled(b) => b.accept(event),
        }
    }
}

/// Gives every builder a `Default` event: each gains one row, the zero of
/// its shape.
pub fn accept_defaults(builders: &mut Vec<DynamicArrayBuilder>)
    requires
        forall|j: int|
            0 <= j < old(builders).len() ==> (#[trigger] old(builders)[j]).wf() && old(
                builders,
            )[j].partial() is None,
    ensures
        final(builders).len() == old(builders).len(),
        forall|j: int|
            0 <= j < old(builders).len() ==> {
                &&& (#[trigger] final(builders)[j]).wf()
                &&& final(builders)[j].shape() == old(builders)[j].shape()
                &&& final(builders)[j].partial() is None
                &&& final(builders)[j].rows() == old(builders)[j].rows().push(
                    old(builders)[j].shape().default_value(),
                )
            },
    decreases *old(builders),
{
    let n = builders.len();
    let mut k: usize = 0;
    while k < n
        invariant
            builders.len() == n,
            n == old(builders).len(),
            k <= n,
            forall|j: int| k <= j < n ==> (#[trigger] builders[j]) == old(builders)[j],
            forall|j: int|
                0 <= j < k ==> {
                    &&& (#[trigger] builders[j]).wf()
                    &&& builders[j].shape() == old(builders)[j].shape()
                    &&& builders[j].partial() is None
                    &&& builders[j].rows() == old(builders)[j].rows().push(
                        old(builders)[j].shape().default_value(),
                    )
                },
            forall|j: int|
                0 <= j < old(builders).len() ==> (#[trigger] old(builders)[j]).wf() && old(
                    builders,
                )[j].partial() is None,
        decreases n - k,
    {
        let _ = builders[k].accept(&Event::Default);
        k = k + 1;
    }
}

/// Ends the batch of every builder: none has a value open, so none fails.
/// Every builder is then ended, and its rows are as they were.
pub fn finish_all(builders: &mut Vec<DynamicArrayBuilder>)
    requires
        forall|j: int|
            0 <= j < old(builders).len() ==> (#[trigger] old(builders)[j]).wf() && old(
                builders,
            )[j].partial() is None,
    ensures
        final(builders).len() == old(builders).len(),
        forall|j: int|
            0 <= j < old(builders).len() ==> {
                &&& (#[trigger] final(builders)[j]).wf()
                &&& final(builders)[j].shape() == old(builders)[j].shape()
                &&& final(builders)[j].partial() is None
                &&& final(builders)[j].rows() == old(builders)[j].rows()
                &&& final(builders)[j].ended()
            },
    decreases *old(builders),
{
    let n = builders.len();
    let mut k: usize = 0;
    while k < n
        invariant
            builders.len() == n,
            n == old(builders).len(),
            k <= n,
            forall|j: int| k <= j < n ==> (#[trigger] builders[j]) == old(builders)[j],
            forall|j: int|
                0 <= j < k ==> {
                    &&& (#[trigger] builders[j]).wf()
                    &&& builders[j].shape() == old(builders)[j].shape()
                    &&& builders[j].partial() is None
                    &&& builders[j].rows() == old(builders)[j].rows()
                    &&& builders[j].ended()
                },
            forall|j: int|
                0 <= j < old(builders).len() ==> (#[trigger] old(builders)[j]).wf() && old(
                    builders,
                )[j].partial() is None,
        decreases n - k,
    {
        let _ = builders[k].finish();
        k = k + 1;
    }
}

/// Hands out the column of every builder and leaves every builder empty.
pub fn build_columns(builders: &mut Vec<DynamicArrayBuilder>) -> (columns: Vec<Array>)
    requires
        forall|j: int|
            0 <= j < old(builders).len() ==> (#[trigger] old(builders)[j]).wf() && old(
                builders,
            )[j].partial() is None,
    ensures
        final(builders).len() == old(builders).len(),
        columns.len() == old(builders).len(),
        forall|j: int|
            0 <= j < old(builders).len() ==> {
                &&& (#[trigger] final(builders)[j]).wf()
                &&& final(builders)[j].shape() == old(builders)[j].shape()
                &&& final(builders)[j].partial() is None
                &&& final(builders)[j].rows() == Seq::<Value>::empty()
            },
        forall|j: int|
            0 <= j < old(builders).len() ==> {
                &&& (#[trigger] columns[j]).wf()
                &&& columns[j].fits(old(builders)[j].shape())
                &&& columns[j].rows() == old(builders)[j].rows()
            },
    decreases *old(builders),
{
    let n = builders.len();
    let mut columns: Vec<Array> = Vec::new();
    let mut k: usize = 0;
    while k < n
        invariant
            builders.len() == n,
            n == old(builders).len(),
            k <= n,
            columns.len() == k,
            forall|j: int| k <= j < n ==> (#[trigger] builders[j]) == old(builders)[j],
            forall|j: int|
                0 <= j < k ==> {
                    &&& (#[trigger] builders[j]).wf()
                    &&& builders[j].shape() == old(builders)[j].shape()
                    &&& builders[j].partial() is None
                    &&& builders[j].rows() == Seq::<Value>::empty()
                },
            forall|j: int|
                0 <= j < k ==> {
                    &&& (#[trigger] columns[j]).wf()
                    &&& columns[j].fits(old(builders)[j].shape())
                    &&& columns[j].rows() == old(builders)[j].rows()
                },
            forall|j: int|
                0 <= j < old(builders).len() ==> (#[trigger] old(builders)[j]).wf() && old(
                    builders,
                )[j].partial() is None,
        decreases n - k,
    {
        let column = builders[k].build_array();
        columns.push(column);
        k = k + 1;
    }
    columns
}

} // verus!
