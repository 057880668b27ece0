//! The conversions on the compiled path, and the builders of single
//! columns.
use vstd::prelude::*;
use crate::array::Array;
use crate::builder::dynamic::DynamicArrayBuilder;
use crate::builder::sink::feed_events;
use crate::builder::factory::{
    build_array_builder, build_compiled_builder, buildable, record_buildable,
};
use crate::error::{Error, Result};
use crate::event::{views, Event};
use crate::internal::{
    arrays_written, columns_hold, extend_builder, extended, take_columns, ArraysBuilder,
};
use crate::model::{fed, Model, Shape};
use crate::schema::GenericField;
use crate::source::arrays_read;

verus! {

/// Builds the columns of a batch of records, record by record, by a
/// program where the compiler has one for the fields.
pub struct Arrow2Builder(pub ArraysBuilder);

impl Arrow2Builder {
    /// A builder for records of the given fields, with no record yet.
    ///
    /// Fails with `UnsupportedType` where a field has no builder.
    pub fn new(fields: Vec<GenericField>) -> (r: Result<Self>)
        ensures
            match r {
                Ok(b) => record_buildable(fields@) && b.0.wf() && b.0.schema() == fields@
                    && b.0.model() == (Model { rows: Seq::empty(), partial: None }),
                Err(e) => e == Error::UnsupportedType && !record_buildable(fields@),
            },
    {
        match ArraysBuilder::compiled(fields) {
            Ok(inner) => Ok(Arrow2Builder(inner)),
            Err(e) => Err(e),
        }
    }

    /// Adds one record: the events of one value.
    pub fn push(&mut self, item: &Vec<Event>) -> (r: Result<()>)
        requires
            old(self).0.wf(),
        ensures
            final(self).0.wf(),
            final(self).0.schema() == old(self).0.schema(),
            fed(old(self).0.shape(), old(self).0.model(), views(item@), r, final(self).0.model()),
    {
        self.0.push(item)
    }

    /// Adds the records of a sequence.
    pub fn extend(&mut self, items: &Vec<Event>) -> (r: Result<()>)
        requires
            old(self).0.wf(),
        ensures
            final(self).0.wf(),
            final(self).0.schema() == old(self).0.schema(),
            extended(
                old(self).0.shape(),
                old(self).0.model(),
                views(items@),
                r,
                final(self).0.model(),
            ),
    {
        self.0.extend(items)
    }

    /// Hands out one column per field, with the records read so far, and
    /// starts a new batch with empty buffers.
    ///
    /// Fails with `ProtocolViolation`, and changes nothing, where a record
    /// is open.
    pub fn build_arrays(&mut self) -> (r: Result<Vec<Array>>)
        requires
            old(self).0.wf(),
        ensures
            final(self).0.wf(),
            final(self).0.schema() == old(self).0.schema(),
            match r {
                Ok(arrays) => {
                    &&& old(self).0.model().partial is None
                    &&& columns_hold(old(self).0.model().rows, old(self).0.schema(), arrays@)
                    &&& final(self).0.model() == (Model { rows: Seq::empty(), partial: None })
                },
                Err(e) => {
                    &&& e == Error::ProtocolViolation
                    &&& old(self).0.model().partial is Some
                    &&& final(self).0.model() == old(self).0.model()
                },
            },
    {
        self.0.build_arrays()
    }
}

/// Builds the columns of a sequence of records, by a program where the
/// compiler has one for the fields.
pub fn to_arrow2(fields: &Vec<GenericField>, items: &Vec<Event>) -> (r: Result<Vec<Array>>)
    ensures
        arrays_written(fields@, views(items@), r),
{
    let mut builder = match build_compiled_builder(fields) {
        Ok(builder) => builder,
        Err(e) => {
            return Err(e);
        },
    };
    match extend_builder(&mut builder, items) {
        Ok(()) => {},
        Err(e) => {
            return Err(e);
        },
    }
    Ok(take_columns(&mut builder, Ghost(fields@)))
}

/// Replays the columns as the events of a sequence of records, as many as
/// the shortest column has rows.
pub fn from_arrow2(fields: &Vec<GenericField>, arrays: &Vec<Array>) -> (r: Result<Vec<Event>>)
    ensures
        arrays_read(fields@, arrays@, r),
{
    crate::source::deserialize_from_arrays(fields, arrays)
}

/// Builds one column, value by value.
pub struct ArrayBuilder {
    builder: DynamicArrayBuilder,
}

impl ArrayBuilder {
    /// The builder is well formed. Every builder that `new` returns is,
    /// and every method keeps it so.
    pub closed spec fn wf(&self) -> bool {
        self.builder.wf()
    }

    /// The shape of the column.
    pub closed spec fn shape(&self) -> Shape {
        self.builder.shape()
    }

    /// The values read so far, and the value that is open.
    pub closed spec fn model(&self) -> Model {
        self.builder.model()
    }

    /// A builder for a column of the field, with no value yet.
    ///
    /// Fails with `UnsupportedType` where the field has no builder.
    pub fn new(field: &GenericField) -> (r: Result<Self>)
        ensures
            match r {
                Ok(b) => buildable(field, usize::MAX as nat) && b.wf() && b.shape()
                    == field.shape() && b.model() == (Model {
                    rows: Seq::empty(),
                    partial: None,
                }),
                Err(e) => e == Error::UnsupportedType && !buildable(field, usize::MAX as nat),
            },
    {
        match build_array_builder(field) {
            Ok(builder) => Ok(ArrayBuilder { builder }),
            Err(e) => Err(e),
        }
    }

    /// Adds one value: the events of one value.
    pub fn push(&mut self, item: &Vec<Event>) -> (r: Result<()>)
        requires
            old(self).wf(),
        ensures
            final(self).wf(),
            final(self).shape() == old(self).shape(),
            fed(old(self).shape(), old(self).model(), views(item@), r, final(self).model()),
    {
        proof {
            assert(views(item@).subrange(0, item.len() as int) =~= views(item@));
        }
        feed_events(&mut self.builder, item, 0, item.len())
    }

    /// Adds the values of a sequence.
    pub fn extend(&mut self, items: &Vec<Event>) -> (r: Result<()>)
        requires
            old(self).wf(),
        ensures
            final(self).wf(),
            final(self).shape() == old(self).shape(),
            extended(old(self).shape(), old(self).model(), views(items@), r, final(self).model()),
    {
        extend_builder(&mut self.builder, items)
    }

    /// Hands out the column with the values read so far, and starts a new
    /// batch with empty buffers.
    ///
    /// Fails with `ProtocolViolation`, and changes nothing, where a value
    /// is open.
    pub fn build_array(&mut self) -> (r: Result<Array>)
        requires
            old(self).wf(),
        ensures
            final(self).wf(),
            final(self).shape() == old(self).shape(),
            match r {
                Ok(array) => {
                    &&& old(self).model().partial is None
                    &&& array.wf()
                    &&& array.fits(old(self).shape())
                    &&& array.rows() == old(self).model().rows
                    &&& final(self).model() == (Model { rows: Seq::empty(), partial: None })
                },
                Err(e) => {
                    &&& e == Error::ProtocolViolation
                    &&& old(self).model().partial is Some
                    &&& final(self).model() == old(self).model()
                },
            },
    {
        match self.builder.finish() {
            Ok(()) => {},
            Err(e) => {
                return Err(e);
            },
        }
        Ok(self.builder.build_array())
    }
}

} // verus!
