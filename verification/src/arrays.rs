//! The conversions between sequences and columns.
//!
//! The functions come in pairs: some work on single columns, some on the
//! columns of records.
//!
//! | operation | columns of records | single column |
//! |---|---|---|
//! | schema tracing | [`serialize_into_fields`] | [`serialize_into_field`] |
//! | events to columns | [`serialize_into_arrays`] | [`serialize_into_array`] |
//! | columns to events | [`deserialize_from_arrays`] | [`deserialize_from_array`] |
use vstd::prelude::*;
use crate::array::Array;
use crate::builder::factory::record_buildable;
use crate::error::{Error, Result};
use crate::event::{views, Event};
use crate::internal::{
    array_written, arrays_written, columns_hold, extended, field_traced, fields_traced,
};
use crate::model::{fed, Model};
use crate::schema::GenericField;
use crate::source::{array_read, arrays_read};
use crate::tracer::TracingOptions;

verus! {

/// Infers the fields of the records of a sequence.
///
/// To record the types, the samples should hold a present value for every
/// optional value, every variant of a union, and an item of every list and
/// map.
pub fn serialize_into_fields(items: &Vec<Event>, options: TracingOptions) -> (r: Result<
    Vec<GenericField>,
>)
    ensures
        fields_traced(options, views(items@), r),
{
    crate::internal::serialize_into_fields(items, options)
}

/// Builds the columns of a sequence of records. To build them record by
/// record, use [`ArraysBuilder`].
pub fn serialize_into_arrays(fields: &Vec<GenericField>, items: &Vec<Event>) -> (r: Result<
    Vec<Array>,
>)
    ensures
        arrays_written(fields@, views(items@), r),
{
    crate::internal::serialize_into_arrays(fields, items)
}

/// Replays the columns as the events of a sequence of records.
pub fn deserialize_from_arrays(fields: &Vec<GenericField>, arrays: &Vec<Array>) -> (r: Result<
    Vec<Event>,
>)
    ensures
        arrays_read(fields@, arrays@, r),
{
    crate::source::deserialize_from_arrays(fields, arrays)
}

/// Infers the field of the items of a sequence, under the given name.
pub fn serialize_into_field(items: &Vec<Event>, name: &str, options: TracingOptions) -> (r:
    Result<GenericField>)
    ensures
        field_traced(options, views(items@), name@, r),
{
    crate::internal::serialize_into_field(items, name, options)
}

/// Builds the column of a sequence of values.
pub fn serialize_into_array(field: &GenericField, items: &Vec<Event>) -> (r: Result<Array>)
    ensures
        array_written(field, views(items@), r),
{
    crate::internal::serialize_into_array(field, items)
}

/// Replays a column as the events of a sequence of values.
pub fn deserialize_from_array(field: &GenericField, array: &Array) -> (r: Result<Vec<Event>>)
    ensures
        array_read(field, array, r),
{
    crate::source::deserialize_from_array(field, array)
}

/// Builds the columns of a batch of records, record by record.
pub struct ArraysBuilder {
    pub inner: crate::internal::ArraysBuilder,
}

impl ArraysBuilder {
    /// A builder for records of the given fields, with no record yet.
    ///
    /// Fails with `UnsupportedType` where a field has no builder.
    pub fn new(fields: Vec<GenericField>) -> (r: Result<Self>)
        ensures
            match r {
                Ok(b) => record_buildable(fields@) && b.inner.wf() && b.inner.schema() == fields@
                    && b.inner.model() == (Model { rows: Seq::empty(), partial: None }),
                Err(e) => e == Error::UnsupportedType && !record_buildable(fields@),
            },
    {
        match crate::internal::ArraysBuilder::new(fields) {
            Ok(inner) => Ok(ArraysBuilder { inner }),
            Err(e) => Err(e),
        }
    }

    /// Adds one record: the events of one value.
    pub fn push(&mut self, item: &Vec<Event>) -> (r: Result<()>)
        requires
            old(self).inner.wf(),
        ensures
            final(self).inner.wf(),
            final(self).inner.schema() == old(self).inner.schema(),
            fed(
                old(self).inner.shape(),
                old(self).inner.model(),
                views(item@),
                r,
                final(self).inner.model(),
            ),
    {
        self.inner.push(item)
    }

    /// Adds the records of a sequence.
    pub fn extend(&mut self, items: &Vec<Event>) -> (r: Result<()>)
        requires
            old(self).inner.wf(),
        ensures
            final(self).inner.wf(),
            final(self).inner.schema() == old(self).inner.schema(),
            extended(
                old(self).inner.shape(),
                old(self).inner.model(),
                views(items@),
                r,
                final(self).inner.model(),
            ),
    {
        self.inner.extend(items)
    }

    /// Hands out one column per field, with the records read so far. This
    /// empties the buffers and starts a new batch.
    ///
    /// Fails with `ProtocolViolation`, and changes nothing, where a record
    /// is open.
    pub fn build_arrays(&mut self) -> (r: Result<Vec<Array>>)
        requires
            old(self).inner.wf(),
        ensures
            final(self).inner.wf(),
            final(self).inner.schema() == old(self).inner.schema(),
            match r {
                Ok(arrays) => {
                    &&& old(self).inner.model().partial is None
                    &&& columns_hold(
                        old(self).inner.model().rows,
                        old(self).inner.schema(),
                        arrays@,
                    )
                    &&& final(self).inner.model() == (Model { rows: Seq::empty(), partial: None })
                },
                Err(e) => {
                    &&& e == Error::ProtocolViolation
                    &&& old(self).inner.model().partial is Some
                    &&& final(self).inner.model() == old(self).inner.model()
                },
            },
    {
        self.inner.build_arrays()
    }
}

} // verus!
