//! The conversions, on builders that follow the schema node by node.
use vstd::prelude::*;
use crate::array::{lemma_columns, lemma_columns_fit, Array};
use crate::builder::dynamic::DynamicArrayBuilder;
use crate::builder::sink::feed_events;
use crate::builder::factory::{
    build_array_builder, build_compiled_builder, build_struct_array_builder, buildable,
    record_buildable,
};
use crate::error::{Error, Result};
use crate::event::{views, Container, Event, EventView};
use crate::model::{fed, feed, Model, Shape, Value};
use crate::schema::{named_fields, record_shape, GenericDataType, GenericField};
use crate::tracer::{
    child_described, child_name, children_described, describes, determined, lemma_all_determined,
    traced_samples, Traced, Tracer, TracingOptions,
};

verus! {

/// Whether the events are a sequence: a `StartList` first and an `EndList`
/// last.
pub open spec fn framed(events: Seq<EventView>) -> bool {
    &&& events.len() >= 2
    &&& events[0] == EventView::Start(Container::List)
    &&& events.last() == EventView::End(Container::List)
}

/// The events between the first and the last.
pub open spec fn unframed(events: Seq<EventView>) -> Seq<EventView> {
    events.subrange(1, events.len() - 1)
}

/// The relation between a builder before and after a sequence of values.
///
/// The outer boundaries are stripped and what lies between them is fed to
/// the builder. A stream that is no sequence is a `ProtocolViolation`, and
/// leaves the builder as it was. An event that the builder refuses fails
/// as the builder says, and leaves what the builder had read before it. A
/// sequence that ends inside a value is a `ProtocolViolation`, and leaves
/// the value open.
pub open spec fn extended(
    shape: Shape,
    before: Model,
    events: Seq<EventView>,
    outcome: Result<()>,
    after: Model,
) -> bool {
    if !framed(events) {
        outcome == Err::<(), Error>(Error::ProtocolViolation) && after == before
    } else {
        match feed(shape, before, unframed(events)) {
            Err(e) => fed(shape, before, unframed(events), outcome, after),
            Ok(m) => after == m && if m.partial is None {
                outcome is Ok
            } else {
                outcome == Err::<(), Error>(Error::ProtocolViolation)
            },
        }
    }
}

/// The builder after a sequence of values that it reads to the end, or the
/// failure.
pub open spec fn extension(shape: Shape, before: Model, events: Seq<EventView>) -> core::result::Result<
    Model,
    Error,
> {
    if !framed(events) {
        Err(Error::ProtocolViolation)
    } else {
        match feed(shape, before, unframed(events)) {
            Err(e) => Err(e),
            Ok(m) => if m.partial is None {
                Ok(m)
            } else {
                Err(Error::ProtocolViolation)
            },
        }
    }
}

/// The rows that a sequence of values makes in an empty column of the
/// shape.
pub open spec fn written(shape: Shape, events: Seq<EventView>) -> core::result::Result<
    Seq<Value>,
    Error,
> {
    match extension(shape, Model { rows: Seq::empty(), partial: None }, events) {
        Ok(m) => Ok(m.rows),
        Err(e) => Err(e),
    }
}

/// Whether the columns hold the records: every column has a row for every
/// record, and where the record is present, the row is the record's field.
pub open spec fn columns_hold(
    records: Seq<Value>,
    fields: Seq<GenericField>,
    columns: Seq<Array>,
) -> bool {
    &&& columns.len() == fields.len()
    &&& forall|j: int|
        0 <= j < columns.len() ==> {
            &&& (#[trigger] columns[j]).wf()
            &&& columns[j].fits(fields[j].shape())
            &&& columns[j].rows().len() == records.len()
        }
    &&& forall|i: int, j: int|
        0 <= i < records.len() && 0 <= j < columns.len() && records[i] is Record ==> (
        #[trigger] columns[j].rows()[i]) == records[i]->Record_0[j]
}

/// Feeds a sequence of values to the builder.
pub fn extend_builder(builder: &mut DynamicArrayBuilder, items: &Vec<Event>) -> (r: Result<()>)
    requires
        old(builder).wf(),
    ensures
        final(builder).wf(),
        final(builder).shape() == old(builder).shape(),
        extended(old(builder).shape(), old(builder).model(), views(items@), r, final(builder).model()),
{
    let n = items.len();
    if n < 2 || !matches!(items[0], Event::StartList) || !matches!(items[n - 1], Event::EndList) {
        return Err(Error::ProtocolViolation);
    }
    match feed_events(builder, items, 1, n - 1) {
        Ok(()) => {},
        Err(e) => {
            return Err(e);
        },
    }
    if !builder.idle() {
        return Err(Error::ProtocolViolation);
    }
    Ok(())
}

/// Takes the columns out of a builder of records.
pub(crate) fn take_columns(
    builder: &mut DynamicArrayBuilder,
    Ghost(fields): Ghost<Seq<GenericField>>,
) -> (r:
    Vec<Array>)
    requires
        old(builder).wf(),
        old(builder).partial() is None,
        old(builder).shape() == record_shape(fields),
    ensures
        final(builder).wf(),
        final(builder).shape() == old(builder).shape(),
        final(builder).rows() == Seq::<Value>::empty(),
        final(builder).partial() is None,
        columns_hold(old(builder).rows(), fields, r@),
{
    let array = builder.build_array();
    match array {
        Array::Struct { validity, columns } => {
            proof {
                lemma_columns(columns@);
                lemma_columns_fit(columns@, named_fields(fields));
                let records = old(builder).rows();
                assert forall|j: int| 0 <= j < columns.len() implies {
                    &&& (#[trigger] columns[j]).wf()
                    &&& columns[j].fits(fields[j].shape())
                    &&& columns[j].rows().len() == records.len()
                } by {
                    assert(Array::column_rows(columns@)[j] == columns[j].rows());
                    assert(named_fields(fields)[j].shape == fields[j].shape());
                }
                assert forall|i: int, j: int|
                    0 <= i < records.len() && 0 <= j < columns.len()
                        && records[i] is Record implies (#[trigger] columns[j].rows()[i])
                    == records[i]->Record_0[j] by {
                    assert(Array::column_rows(columns@)[j] == columns[j].rows());
                }
            }
            columns
        },
        _ => Vec::new(),
    }
}

/// Builds the columns of a batch of records, record by record.
pub struct ArraysBuilder {
    fields: Vec<GenericField>,
    builder: DynamicArrayBuilder,
}

impl ArraysBuilder {
    /// The builder is the builder of the records of the fields. Every
    /// builder that `new` returns is well formed, and every method keeps it
    /// so.
    pub closed spec fn wf(&self) -> bool {
        &&& self.builder.wf()
        &&& self.builder.shape() == record_shape(self.fields@)
    }

    /// The fields of the records.
    pub closed spec fn schema(&self) -> Seq<GenericField> {
        self.fields@
    }

    /// The shape of the records.
    pub open spec fn shape(&self) -> Shape {
        record_shape(self.schema())
    }

    /// The records read so far, and the record that is open.
    pub closed spec fn model(&self) -> Model {
        self.builder.model()
    }

    /// A builder for records of the given fields, with no record yet.
    ///
    /// Fails with `UnsupportedType` where a field has no builder.
    pub fn new(fields: Vec<GenericField>) -> (r: Result<Self>)
        ensures
            match r {
                Ok(b) => record_buildable(fields@) && b.wf() && b.schema() == fields@ && b.model()
                    == (Model { rows: Seq::empty(), partial: None }),
                Err(e) => e == Error::UnsupportedType && !record_buildable(fields@),
            },
    {
        match build_struct_array_builder(&fields) {
            Ok(builder) => Ok(ArraysBuilder { fields, builder }),
            Err(e) => Err(e),
        }
    }

    /// A builder for records of the given fields that runs a program where
    /// the compiler has one for the fields, with no record yet.
    ///
    /// Fails with `UnsupportedType` where a field has no builder.
    pub fn compiled(fields: Vec<GenericField>) -> (r: Result<Self>)
        ensures
            match r {
                Ok(b) => record_buildable(fields@) && b.wf() && b.schema() == fields@ && b.model()
                    == (Model { rows: Seq::empty(), partial: None }),
                Err(e) => e == Error::UnsupportedType && !record_buildable(fields@),
            },
    {
        match build_compiled_builder(&fields) {
            Ok(builder) => Ok(ArraysBuilder { fields, builder }),
            Err(e) => Err(e),
        }
    }

    /// Adds one record: the events of one value.
    ///
    /// After a failure the batch is to be discarded.
    pub fn push(&mut self, item: &Vec<Event>) -> (r: Result<()>)
        requires
            old(self).wf(),
        ensures
            final(self).wf(),
            final(self).schema() == old(self).schema(),
            fed(old(self).shape(), old(self).model(), views(item@), r, final(self).model()),
    {
        proof {
            assert(views(item@).subrange(0, item.len() as int) =~= views(item@));
        }
        feed_events(&mut self.builder, item, 0, item.len())
    }

    /// Adds the records of a sequence.
    ///
    /// After a failure the batch is to be discarded.
    pub fn extend(&mut self, items: &Vec<Event>) -> (r: Result<()>)
        requires
            old(self).wf(),
        ensures
            final(self).wf(),
            final(self).schema() == old(self).schema(),
            extended(old(self).shape(), old(self).model(), views(items@), r, final(self).model()),
    {
        extend_builder(&mut self.builder, items)
    }

    /// Hands out one column per field, with the records read so far, and
    /// starts a new batch with empty buffers.
    ///
    /// Fails with `ProtocolViolation`, and changes nothing, where a record
    /// is open.
    pub fn build_arrays(&mut self) -> (r: Result<Vec<Array>>)
        requires
            old(self).wf(),
        ensures
            final(self).wf(),
            final(self).schema() == old(self).schema(),
            match r {
                Ok(arrays) => {
                    &&& old(self).model().partial is None
                    &&& columns_hold(old(self).model().rows, old(self).schema(), arrays@)
                    &&& final(self).model() == (Model { rows: Seq::empty(), partial: None })
                },
                Err(e) => {
                    &&& e == Error::ProtocolViolation
                    &&& old(self).model().partial is Some
                    &&& final(self).model() == old(self).model()
                },
            },
    {
        match self.builder.finish() {
            Ok(()) => {},
            Err(e) => {
                return Err(e);
            },
        }
        Ok(take_columns(&mut self.builder, Ghost(self.fields@)))
    }
}

/// What the conversion of a sequence of records to columns returns.
///
/// Where a field has no builder, it fails with `UnsupportedType`. Else it
/// returns what [`written`] says of records of the fields: the failure,
/// or columns that hold the records.
pub open spec fn arrays_written(
    fields: Seq<GenericField>,
    items: Seq<EventView>,
    outcome: Result<Vec<Array>>,
) -> bool {
    match outcome {
        Ok(arrays) => record_buildable(fields) && match written(record_shape(fields), items) {
            Ok(records) => columns_hold(records, fields, arrays@),
            Err(_) => false,
        },
        Err(e) => if record_buildable(fields) {
            written(record_shape(fields), items) == Err::<Seq<Value>, Error>(e)
        } else {
            e == Error::UnsupportedType
        },
    }
}

/// What the conversion of a sequence of values to one column returns.
///
/// Where the field has no builder, it fails with `UnsupportedType`. Else
/// it returns what [`written`] says of a column of the field: the failure,
/// or a column with those rows.
pub open spec fn array_written(
    field: &GenericField,
    items: Seq<EventView>,
    outcome: Result<Array>,
) -> bool {
    match outcome {
        Ok(array) => buildable(field, usize::MAX as nat) && array.wf() && array.fits(
            field.shape(),
        ) && written(field.shape(), items) == Ok::<Seq<Value>, Error>(array.rows()),
        Err(e) => if buildable(field, usize::MAX as nat) {
            written(field.shape(), items) == Err::<Seq<Value>, Error>(e)
        } else {
            e == Error::UnsupportedType
        },
    }
}

/// What the inference of the fields of records returns.
///
/// It fails as [`traced_samples`] says; and with `SchemaInferenceFailure`
/// where the sequence has no records, where its items are no records, or
/// where the samples do not determine the type of a field. Else it
/// returns the schema of every field of the records.
pub open spec fn fields_traced(
    options: TracingOptions,
    items: Seq<EventView>,
    outcome: Result<Vec<GenericField>>,
) -> bool {
    match traced_samples(options, items) {
        Err(e) => outcome matches Err(err) && err == e,
        Ok(t) => if records_type(t) && determined(options, t) {
            outcome matches Ok(fields) && fields.len() == t.children.len() && children_described(
                options,
                fields@,
                t,
                fields.len() as int,
            )
        } else {
            outcome matches Err(err) && err == Error::SchemaInferenceFailure
        },
    }
}

/// What the inference of the field of the items of a sequence returns.
///
/// It fails as [`traced_samples`] says; and with `SchemaInferenceFailure`
/// where the samples do not determine the type. Else it returns the
/// schema of the items, under the given name.
pub open spec fn field_traced(
    options: TracingOptions,
    items: Seq<EventView>,
    name: Seq<char>,
    outcome: Result<GenericField>,
) -> bool {
    match traced_samples(options, items) {
        Err(e) => outcome matches Err(err) && err == e,
        Ok(t) => if determined(options, t) {
            outcome matches Ok(field) && describes(&field, t, name) && field.supported()
        } else {
            outcome matches Err(err) && err == Error::SchemaInferenceFailure
        },
    }
}

/// Whether the type is that of records: a struct or a tuple.
pub open spec fn records_type(t: Traced) -> bool {
    t.kind is Struct || t.kind is Tuple
}

/// Builds the columns of a sequence of records.
///
/// Fails with `UnsupportedType` where a field has no builder, and else as
/// [`written`] says.
pub fn serialize_into_arrays(fields: &Vec<GenericField>, items: &Vec<Event>) -> (r: Result<
    Vec<Array>,
>)
    ensures
        arrays_written(fields@, views(items@), r),
{
    let mut builder = match build_struct_array_builder(fields) {
        Ok(builder) => builder,
        Err(e) => {
            return Err(e);
        }};
    match extend_builder(&mut builder, items) {
        Ok(()) => {},
        Err(e) => {
            return Err(e);
        },
    }
    Ok(take_columns(&mut builder, Ghost(fields@)))
}

/// Builds the column of a sequence of values.
///
/// Fails with `UnsupportedType` where the field has no builder, and else
/// as [`written`] says.
pub fn serialize_into_array(field: &GenericField, items: &Vec<Event>) -> (r: Result<Array>)
    ensures
        array_written(field, views(items@), r),
{
    let mut builder = match build_array_builder(field) {
        Ok(builder) => builder,
        Err(e) => {
            return Err(e);
        }};
    match extend_builder(&mut builder, items) {
        Ok(()) => {},
        Err(e) => {
            return Err(e);
        },
    }
    Ok(builder.build_array())
}

/// Infers the fields of the records of a sequence.
///
/// Fails as [`traced_samples`] says; and with `SchemaInferenceFailure`
/// where the sequence has no records, where its items are no records, or
/// where the samples do not determine the type of a field.
pub fn serialize_into_fields(items: &Vec<Event>, options: TracingOptions) -> (r: Result<
    Vec<GenericField>,
>)
    ensures
        fields_traced(options, views(items@), r),
{
    let mut tracer = Tracer::new(options);
    match tracer.trace_samples(items) {
        Ok(()) => {},
        Err(e) => {
            return Err(e);
        },
    }
    let root = match tracer.to_field("root") {
        Ok(root) => root,
        Err(e) => {
            return Err(e);
        }};
    proof {
        reveal(describes);
        let t = traced_samples(options, views(items@))->Ok_0;
        assert(tracer.root@ == t);
        lemma_all_determined(options, t.children, t.children.len());
        if records_type(t) {
            assert forall|j: int| 0 <= j < root.children.len() implies child_described(
                options,
                #[trigger] root.children@[j],
                t,
                j,
            ) by {
                assert(root.children[j].supported());
                assert(describes(&root.children[j], t.children[j], child_name(t, j)));
            }
        }
    }
    match root.data_type {
        GenericDataType::Struct => Ok(root.children),
        _ => Err(Error::SchemaInferenceFailure),
    }
}

/// Infers the field of the items of a sequence, under the given name.
///
/// Fails as [`traced_samples`] says; and with `SchemaInferenceFailure`
/// where the samples do not determine the type.
pub fn serialize_into_field(items: &Vec<Event>, name: &str, options: TracingOptions) -> (r:
    Result<GenericField>)
    ensures
        field_traced(options, views(items@), name@, r),
{
    let mut tracer = Tracer::new(options);
    match tracer.trace_samples(items) {
        Ok(()) => {},
        Err(e) => {
            return Err(e);
        },
    }
    tracer.to_field(name)
}

} // verus!
