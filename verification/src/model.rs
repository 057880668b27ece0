//! What an event stream means.
//!
//! A column has a [`Shape`]; its rows are [`Value`]s. An event stream is
//! read one event at a time by [`advance`], which keeps the value that is
//! still open as a [`Partial`]. Every builder's contract says that the
//! builder follows `advance`; every source's contract says that it emits
//! [`events_of`].
use vstd::prelude::*;
use crate::datetime::DateTimeForm;
use crate::error::Error;
use crate::event::{Container, EventView, FloatType, IntType};

verus! {

/// A field of a record: its name and the shape of its values.
pub struct Named {
    pub name: Seq<char>,
    pub shape: Shape,
}

/// The grammar of one column.
pub enum Shape {
    /// Every row is absent.
    Null,
    Bool,
    Int(IntType),
    /// Floating point numbers of either width are read as they are; the
    /// declared width says how the column is laid out in memory.
    Float(FloatType),
    Utf8,
    /// A string column stored as keys into a table of distinct strings.
    Dictionary,
    /// Milliseconds since the epoch, given and returned as text.
    DateText(DateTimeForm),
    List(Box<Shape>),
    /// A struct (`keyed`: every value is announced by its field's name) or
    /// a tuple.
    Record { keyed: bool, fields: Seq<Named> },
    Mapping(Box<Shape>, Box<Shape>),
    Union(Seq<Named>),
}

/// One row of a column.
pub enum Value {
    Null,
    Bool(bool),
    Int(int),
    F32(u32),
    F64(u64),
    Str(Seq<char>),
    List(Seq<Value>),
    Record(Seq<Value>),
    Mapping(Seq<(Value, Value)>),
    Variant(int, Box<Value>),
}

/// A value whose events have not all arrived.
pub enum Partial {
    /// `done` holds the fields that are complete; `keyed` says that the
    /// name of the next field has been seen.
    Record { done: Seq<Value>, keyed: bool, inner: Option<Box<Partial>> },
    List { done: Seq<Value>, inner: Option<Box<Partial>> },
    /// `key` is the key of the entry whose value is awaited.
    Mapping { entries: Seq<(Value, Value)>, key: Option<Value>, inner: Option<Box<Partial>> },
    Variant { index: int, inner: Option<Box<Partial>> },
}

/// The outcome of one event.
pub enum Step {
    /// The event completed a value.
    Done(Value),
    /// The value is still open.
    More(Partial),
    /// The event is refused.
    Fail(Error),
}

impl Shape {
    /// The container whose boundaries enclose a record of this kind.
    pub open spec fn record_container(keyed: bool) -> Container {
        if keyed {
            Container::Struct
        } else {
            Container::Tuple
        }
    }

    /// How deeply containers nest in the shape.
    pub open spec fn height(self) -> nat
        decreases self,
    {
        match self {
            Shape::List(item) => 1 + item.height(),
            Shape::Record { keyed, fields } => 1 + fields_height(fields),
            Shape::Mapping(key, value) => 1 + if key.height() >= value.height() {
                key.height()
            } else {
                value.height()
            },
            Shape::Union(variants) => 1 + fields_height(variants),
            _ => 0,
        }
    }

    /// The zero of the shape: what a `Default` event stands for.
    pub open spec fn default_value(self) -> Value
        decreases self,
    {
        match self {
            Shape::Null => Value::Null,
            Shape::Bool => Value::Bool(false),
            Shape::Int(_) => Value::Int(0),
            Shape::Float(FloatType::F64) => Value::F64(0),
            Shape::Float(_) => Value::F32(0),
            Shape::Utf8 => Value::Str(Seq::empty()),
            Shape::Dictionary => Value::Str(Seq::empty()),
            Shape::DateText(_) => Value::Int(0),
            Shape::List(_) => Value::List(Seq::empty()),
            Shape::Record { keyed, fields } => Value::Record(default_values(fields)),
            Shape::Mapping(_, _) => Value::Mapping(Seq::empty()),
            Shape::Union(variants) => if variants.len() > 0 {
                Value::Variant(0, Box::new(variants[0].shape.default_value()))
            } else {
                Value::Null
            },
        }
    }
}

/// The greatest height among the fields.
pub open spec fn fields_height(fields: Seq<Named>) -> nat
    decreases fields,
{
    if fields.len() == 0 {
        0
    } else {
        let rest = fields_height(fields.drop_last());
        let last = fields.last().shape.height();
        if last >= rest {
            last
        } else {
            rest
        }
    }
}

/// The zero of every field, in order.
pub open spec fn default_values(fields: Seq<Named>) -> Seq<Value>
    decreases fields,
{
    if fields.len() == 0 {
        Seq::empty()
    } else {
        default_values(fields.drop_last()).push(fields.last().shape.default_value())
    }
}

/// What the first event of a value says about it.
pub open spec fn begin(shape: Shape, event: EventView) -> Step {
    match event {
        EventView::End(_) => Step::Fail(Error::ProtocolViolation),
        EventView::Null => if shape is Union {
            Step::Fail(Error::TypeMismatch)
        } else {
            Step::Done(Value::Null)
        },
        EventView::Default => Step::Done(shape.default_value()),
        _ => match shape {
            Shape::Null => Step::Fail(Error::TypeMismatch),
            Shape::Bool => match event {
                EventView::Bool(b) => Step::Done(Value::Bool(b)),
                _ => Step::Fail(Error::TypeMismatch),
            },
            Shape::Int(ty) => match event {
                EventView::Int(_, v) => if ty.holds(v) {
                    Step::Done(Value::Int(v))
                } else {
                    Step::Fail(Error::EncodingError)
                },
                _ => Step::Fail(Error::TypeMismatch),
            },
            Shape::Float(_) => match event {
                EventView::F32(bits) => Step::Done(Value::F32(bits)),
                EventView::F64(bits) => Step::Done(Value::F64(bits)),
                _ => Step::Fail(Error::TypeMismatch),
            },
            Shape::Utf8 | Shape::Dictionary => match event {
                EventView::Str(s) => Step::Done(Value::Str(s)),
                _ => Step::Fail(Error::TypeMismatch),
            },
            Shape::DateText(form) => match event {
                EventView::Str(s) => match form.millis_of(s) {
                    Some(millis) => Step::Done(Value::Int(millis as int)),
                    None => Step::Fail(Error::EncodingError),
                },
                EventView::Int(_, v) => if IntType::I64.holds(v) {
                    Step::Done(Value::Int(v))
                } else {
                    Step::Fail(Error::EncodingError)
                },
                _ => Step::Fail(Error::TypeMismatch),
            },
            Shape::List(_) => match event {
                EventView::Start(Container::List) => Step::More(
                    Partial::List { done: Seq::empty(), inner: None },
                ),
                _ => Step::Fail(Error::TypeMismatch),
            },
            Shape::Record { keyed, fields } => if event == EventView::Start(
                Shape::record_container(keyed),
            ) {
                Step::More(Partial::Record { done: Seq::empty(), keyed: false, inner: None })
            } else {
                Step::Fail(Error::TypeMismatch)
            },
            Shape::Mapping(_, _) => match event {
                EventView::Start(Container::Mapping) => Step::More(
                    Partial::Mapping { entries: Seq::empty(), key: None, inner: None },
                ),
                _ => Step::Fail(Error::TypeMismatch),
            },
            Shape::Union(variants) => match event {
                EventView::Variant(_, index) => if 0 <= index < variants.len() {
                    Step::More(Partial::Variant { index, inner: None })
                } else {
                    Step::Fail(Error::TypeMismatch)
                },
                _ => Step::Fail(Error::TypeMismatch),
            },
        },
    }
}

/// The part of a partial value that is itself open.
pub open spec fn unboxed(inner: Option<Box<Partial>>) -> Option<Partial> {
    match inner {
        Some(b) => Some(*b),
        None => None,
    }
}

/// One event, read against the shape with `partial` open.
pub open spec fn advance(shape: Shape, partial: Option<Partial>, event: EventView) -> Step
    decreases shape,
{
    match partial {
        None => begin(shape, event),
        Some(Partial::List { done, inner }) => match shape {
            Shape::List(item) => if inner is None && event == EventView::End(Container::List) {
                Step::Done(Value::List(done))
            } else {
                match advance(*item, unboxed(inner), event) {
                    Step::Done(v) => Step::More(Partial::List { done: done.push(v), inner: None }),
                    Step::More(q) => Step::More(
                        Partial::List { done, inner: Some(Box::new(q)) },
                    ),
                    Step::Fail(e) => Step::Fail(e),
                }
            },
            _ => Step::Fail(Error::ProtocolViolation),
        },
        Some(Partial::Record { done, keyed: named, inner }) => match shape {
            Shape::Record { keyed, fields } => if inner is None && !named && event is End {
                if event == EventView::End(Shape::record_container(keyed)) && done.len()
                    == fields.len() {
                    Step::Done(Value::Record(done))
                } else {
                    Step::Fail(Error::ProtocolViolation)
                }
            } else if done.len() >= fields.len() {
                Step::Fail(Error::ProtocolViolation)
            } else if keyed && !named {
                if inner is None && event == EventView::Str(fields[done.len() as int].name) {
                    Step::More(Partial::Record { done, keyed: true, inner: None })
                } else {
                    Step::Fail(Error::ProtocolViolation)
                }
            } else {
                match advance(fields[done.len() as int].shape, unboxed(inner), event) {
                    Step::Done(v) => Step::More(
                        Partial::Record { done: done.push(v), keyed: false, inner: None },
                    ),
                    Step::More(q) => Step::More(
                        Partial::Record { done, keyed: named, inner: Some(Box::new(q)) },
                    ),
                    Step::Fail(e) => Step::Fail(e),
                }
            },
            _ => Step::Fail(Error::ProtocolViolation),
        },
        Some(Partial::Mapping { entries, key, inner }) => match shape {
            Shape::Mapping(key_shape, value_shape) => if inner is None && key is None && event
                == EventView::End(Container::Mapping) {
                Step::Done(Value::Mapping(entries))
            } else if key is None {
                match advance(*key_shape, unboxed(inner), event) {
                    Step::Done(k) => Step::More(
                        Partial::Mapping { entries, key: Some(k), inner: None },
                    ),
                    Step::More(q) => Step::More(
                        Partial::Mapping { entries, key, inner: Some(Box::new(q)) },
                    ),
                    Step::Fail(e) => Step::Fail(e),
                }
            } else {
                match advance(*value_shape, unboxed(inner), event) {
                    Step::Done(v) => Step::More(
                        Partial::Mapping {
                            entries: entries.push((key.unwrap(), v)),
                            key: None,
                            inner: None,
                        },
                    ),
                    Step::More(q) => Step::More(
                        Partial::Mapping { entries, key, inner: Some(Box::new(q)) },
                    ),
                    Step::Fail(e) => Step::Fail(e),
                }
            },
            _ => Step::Fail(Error::ProtocolViolation),
        },
        Some(Partial::Variant { index, inner }) => match shape {
            Shape::Union(variants) => if 0 <= index < variants.len() {
                match advance(variants[index].shape, unboxed(inner), event) {
                    Step::Done(v) => Step::Done(Value::Variant(index, Box::new(v))),
                    Step::More(q) => Step::More(
                        Partial::Variant { index, inner: Some(Box::new(q)) },
                    ),
                    Step::Fail(e) => Step::Fail(e),
                }
            } else {
                Step::Fail(Error::ProtocolViolation)
            },
            _ => Step::Fail(Error::ProtocolViolation),
        },
    }
}

/// The number of containers that are open in a partial value.
pub open spec fn open_count(partial: Option<Partial>) -> nat
    decreases partial,
{
    match partial {
        None => 0,
        Some(Partial::List { done, inner }) => 1 + open_count(unboxed(inner)),
        Some(Partial::Record { done, keyed, inner }) => 1 + open_count(unboxed(inner)),
        Some(Partial::Mapping { entries, key, inner }) => 1 + open_count(unboxed(inner)),
        Some(Partial::Variant { index, inner }) => open_count(unboxed(inner)),
    }
}

/// How an event changes the number of open containers: a start opens one,
/// an end closes one, and a value is complete exactly when none is open.
pub proof fn lemma_advance_depth(shape: Shape, partial: Option<Partial>, event: EventView)
    ensures
        match advance(shape, partial, event) {
            Step::Fail(_) => true,
            Step::Done(_) => {
                &&& !event.is_start()
                &&& !event.is_marker()
                &&& event.is_end() ==> open_count(partial) == 1
                &&& event.is_value() ==> open_count(partial) == 0
            },
            Step::More(q) => {
                &&& event.is_start() ==> open_count(Some(q)) == open_count(partial) + 1
                &&& event.is_end() ==> open_count(Some(q)) == open_count(partial) - 1
                    && open_count(Some(q)) >= 1
                &&& event.is_value() ==> open_count(Some(q)) == open_count(partial)
                    && open_count(partial) >= 1
                &&& event.is_marker() ==> open_count(Some(q)) == open_count(partial)
            },
        },
    decreases shape,
{
    reveal_with_fuel(open_count, 2);
    match partial {
        None => {},
        Some(Partial::List { done, inner }) => match shape {
            Shape::List(item) => {
                lemma_advance_depth(*item, unboxed(inner), event);
            },
            _ => {},
        },
        Some(Partial::Record { done, keyed: named, inner }) => match shape {
            Shape::Record { keyed, fields } => {
                if done.len() < fields.len() {
                    lemma_advance_depth(fields[done.len() as int].shape, unboxed(inner), event);
                }
            },
            _ => {},
        },
        Some(Partial::Mapping { entries, key, inner }) => match shape {
            Shape::Mapping(key_shape, value_shape) => {
                lemma_advance_depth(*key_shape, unboxed(inner), event);
                lemma_advance_depth(*value_shape, unboxed(inner), event);
            },
            _ => {},
        },
        Some(Partial::Variant { index, inner }) => match shape {
            Shape::Union(variants) => {
                if 0 <= index < variants.len() {
                    lemma_advance_depth(variants[index].shape, unboxed(inner), event);
                }
            },
            _ => {},
        },
    }
}

/// What a builder has read: the rows that are complete and the value that
/// is still open.
pub struct Model {
    pub rows: Seq<Value>,
    pub partial: Option<Partial>,
}

/// The model after one more event, or the failure that the event causes.
pub open spec fn accept_event(shape: Shape, model: Model, event: EventView) -> Result<
    Model,
    Error,
> {
    match advance(shape, model.partial, event) {
        Step::Done(v) => Ok(Model { rows: model.rows.push(v), partial: None }),
        Step::More(q) => Ok(Model { rows: model.rows, partial: Some(q) }),
        Step::Fail(e) => Err(e),
    }
}

/// The relation between a builder before and after `accept`: it follows
/// [`accept_event`], and a refused event leaves it as it was.
pub open spec fn accepted(
    shape: Shape,
    before: Model,
    event: EventView,
    outcome: Result<(), Error>,
    after: Model,
) -> bool {
    match accept_event(shape, before, event) {
        Ok(m) => outcome is Ok && after == m,
        Err(e) => outcome == Err::<(), Error>(e) && after == before,
    }
}

/// No field is higher than the greatest height among the fields.
pub proof fn lemma_fields_height(fields: Seq<Named>, j: int)
    requires
        0 <= j < fields.len(),
    ensures
        fields[j].shape.height() <= fields_height(fields),
    decreases fields.len(),
{
    if j < fields.len() - 1 {
        lemma_fields_height(fields.drop_last(), j);
    }
}

/// The zeros of the fields are the zeros of their shapes, one per field.
pub proof fn lemma_default_values(fields: Seq<Named>)
    ensures
        default_values(fields).len() == fields.len(),
        forall|j: int|
            0 <= j < fields.len() ==> default_values(fields)[j]
                == (#[trigger] fields[j]).shape.default_value(),
    decreases fields.len(),
{
    if fields.len() > 0 {
        lemma_default_values(fields.drop_last());
        assert forall|j: int| 0 <= j < fields.len() implies default_values(fields)[j]
            == (#[trigger] fields[j]).shape.default_value() by {
            if j < fields.len() - 1 {
                assert(fields.drop_last()[j] == fields[j]);
            }
        }
    }
}

/// A bound on every field's height bounds the greatest height.
pub proof fn lemma_fields_height_bound(fields: Seq<Named>, bound: nat)
    requires
        forall|j: int| 0 <= j < fields.len() ==> (#[trigger] fields[j]).shape.height() <= bound,
    ensures
        fields_height(fields) <= bound,
    decreases fields.len(),
{
    if fields.len() > 0 {
        assert forall|j: int| 0 <= j < fields.drop_last().len() implies (
        #[trigger] fields.drop_last()[j]).shape.height() <= bound by {
            assert(fields.drop_last()[j] == fields[j]);
        }
        lemma_fields_height_bound(fields.drop_last(), bound);
        assert(fields.last() == fields[fields.len() - 1]);
    }
}

/// The events that a source emits for a value of the shape: the one
/// stream, among those that stand for the value, that a builder of the
/// shape reads back as that value.
pub open spec fn events_of(shape: Shape, value: Value) -> Seq<EventView>
    decreases value,
{
    match value {
        Value::Null => seq![EventView::Null],
        Value::Bool(b) => seq![EventView::Bool(b)],
        Value::Int(v) => match shape {
            Shape::Int(ty) => seq![EventView::Int(ty, v)],
            Shape::DateText(form) => match form.text_of(v as i64) {
                Some(text) => seq![EventView::Str(text)],
                None => seq![EventView::Int(IntType::I64, v)],
            },
            _ => seq![EventView::Int(IntType::I64, v)],
        },
        Value::F32(bits) => seq![EventView::F32(bits)],
        Value::F64(bits) => seq![EventView::F64(bits)],
        Value::Str(s) => seq![EventView::Str(s)],
        Value::List(items) => match shape {
            Shape::List(item) => seq![EventView::Start(Container::List)] + items_events(
                *item,
                items,
            ) + seq![EventView::End(Container::List)],
            _ => Seq::empty(),
        },
        Value::Record(cells) => match shape {
            Shape::Record { keyed, fields } => seq![
                EventView::Start(Shape::record_container(keyed)),
            ] + fields_events(keyed, fields, cells) + seq![
                EventView::End(Shape::record_container(keyed)),
            ],
            _ => Seq::empty(),
        },
        Value::Mapping(entries) => match shape {
            Shape::Mapping(key, val) => seq![EventView::Start(Container::Mapping)]
                + entries_events(*key, *val, entries) + seq![
                EventView::End(Container::Mapping),
            ],
            _ => Seq::empty(),
        },
        Value::Variant(index, inner) => match shape {
            Shape::Union(variants) => if 0 <= index < variants.len() {
                seq![EventView::Variant(variants[index].name, index)] + events_of(
                    variants[index].shape,
                    *inner,
                )
            } else {
                Seq::empty()
            },
            _ => Seq::empty(),
        },
    }
}

/// The events of the items of a list, one item after another.
pub open spec fn items_events(item: Shape, items: Seq<Value>) -> Seq<EventView>
    decreases items,
{
    if items.len() == 0 {
        Seq::empty()
    } else {
        items_events(item, items.drop_last()) + events_of(item, items.last())
    }
}

/// The events of the first fields of a record, as many as there are cells.
pub open spec fn fields_events(keyed: bool, fields: Seq<Named>, cells: Seq<Value>) -> Seq<
    EventView,
>
    decreases cells,
{
    if cells.len() == 0 {
        Seq::empty()
    } else {
        fields_events(keyed, fields, cells.drop_last()) + if keyed {
            seq![EventView::Str(fields[cells.len() - 1].name)] + events_of(
                fields[cells.len() - 1].shape,
                cells.last(),
            )
        } else {
            events_of(fields[cells.len() - 1].shape, cells.last())
        }
    }
}

/// The events of the entries of a map: key, value, key, value.
pub open spec fn entries_events(key: Shape, val: Shape, entries: Seq<(Value, Value)>) -> Seq<
    EventView,
>
    decreases entries,
{
    if entries.len() == 0 {
        Seq::empty()
    } else {
        entries_events(key, val, entries.drop_last()) + events_of(key, entries.last().0)
            + events_of(val, entries.last().1)
    }
}

/// Whether a source can emit the value: every date/time that is read as
/// text has a text.
pub open spec fn printable(shape: Shape, value: Value) -> bool
    decreases value,
{
    match value {
        Value::Int(v) => match shape {
            Shape::DateText(form) => form.text_of(v as i64) is Some,
            _ => true,
        },
        Value::List(items) => match shape {
            Shape::List(item) => items_printable(*item, items),
            _ => true,
        },
        Value::Record(cells) => match shape {
            Shape::Record { keyed, fields } => cells_printable(fields, cells),
            _ => true,
        },
        Value::Mapping(entries) => match shape {
            Shape::Mapping(key, val) => entries_printable(*key, *val, entries),
            _ => true,
        },
        Value::Variant(index, inner) => match shape {
            Shape::Union(variants) => 0 <= index < variants.len() ==> printable(
                variants[index].shape,
                *inner,
            ),
            _ => true,
        },
        _ => true,
    }
}

/// Whether every item can be emitted.
pub open spec fn items_printable(item: Shape, items: Seq<Value>) -> bool
    decreases items,
{
    items.len() > 0 ==> items_printable(item, items.drop_last()) && printable(item, items.last())
}

/// Whether every cell can be emitted as a value of the field at its place.
pub open spec fn cells_printable(fields: Seq<Named>, cells: Seq<Value>) -> bool
    decreases cells,
{
    cells.len() > 0 ==> cells_printable(fields, cells.drop_last()) && printable(
        fields[cells.len() - 1].shape,
        cells.last(),
    )
}

/// Whether every key and every value can be emitted.
pub open spec fn entries_printable(key: Shape, val: Shape, entries: Seq<(Value, Value)>) -> bool
    decreases entries,
{
    entries.len() > 0 ==> entries_printable(key, val, entries.drop_last()) && printable(
        key,
        entries.last().0,
    ) && printable(val, entries.last().1)
}

/// What `items_printable`, `cells_printable` and `entries_printable` say of
/// each element.
pub proof fn lemma_printable(
    key: Shape,
    val: Shape,
    fields: Seq<Named>,
    items: Seq<Value>,
    entries: Seq<(Value, Value)>,
)
    ensures
        items_printable(key, items) <==> forall|k: int|
            0 <= k < items.len() ==> printable(key, #[trigger] items[k]),
        cells_printable(fields, items) <==> forall|j: int|
            0 <= j < items.len() ==> printable(fields[j].shape, #[trigger] items[j]),
        entries_printable(key, val, entries) <==> forall|k: int|
            0 <= k < entries.len() ==> (printable(key, (#[trigger] entries[k]).0) && printable(
                val,
                entries[k].1,
            )),
    decreases items.len() + entries.len(),
{
    if items.len() > 0 {
        lemma_printable(key, val, fields, items.drop_last(), Seq::empty());
        assert forall|k: int| 0 <= k < items.len() - 1 implies items.drop_last()[k]
            == items[k] by {}
        if items_printable(key, items) {
            assert forall|k: int| 0 <= k < items.len() implies printable(
                key,
                #[trigger] items[k],
            ) by {
                if k < items.len() - 1 {
                    assert(items.drop_last()[k] == items[k]);
                }
            }
        }
        if cells_printable(fields, items) {
            assert forall|j: int| 0 <= j < items.len() implies printable(
                fields[j].shape,
                #[trigger] items[j],
            ) by {
                if j < items.len() - 1 {
                    assert(items.drop_last()[j] == items[j]);
                }
            }
        }
        if forall|k: int| 0 <= k < items.len() ==> printable(key, #[trigger] items[k]) {
            assert forall|k: int| 0 <= k < items.len() - 1 implies printable(
                key,
                #[trigger] items.drop_last()[k],
            ) by {
                assert(items.drop_last()[k] == items[k]);
            }
            assert(items.last() == items[items.len() - 1]);
        }
        if forall|j: int| 0 <= j < items.len() ==> printable(fields[j].shape, #[trigger] items[j]) {
            assert forall|j: int| 0 <= j < items.len() - 1 implies printable(
                fields[j].shape,
                #[trigger] items.drop_last()[j],
            ) by {
                assert(items.drop_last()[j] == items[j]);
            }
            assert(items.last() == items[items.len() - 1]);
        }
    }
    if entries.len() > 0 {
        lemma_printable(key, val, fields, Seq::empty(), entries.drop_last());
        if entries_printable(key, val, entries) {
            assert forall|k: int| 0 <= k < entries.len() implies (printable(
                key,
                (#[trigger] entries[k]).0,
            ) && printable(val, entries[k].1)) by {
                if k < entries.len() - 1 {
                    assert(entries.drop_last()[k] == entries[k]);
                }
            }
        }
        if forall|k: int|
            0 <= k < entries.len() ==> (printable(key, (#[trigger] entries[k]).0) && printable(
                val,
                entries[k].1,
            )) {
            assert forall|k: int| 0 <= k < entries.len() - 1 implies (printable(
                key,
                (#[trigger] entries.drop_last()[k]).0,
            ) && printable(val, entries.drop_last()[k].1)) by {
                assert(entries.drop_last()[k] == entries[k]);
            }
            assert(entries.last() == entries[entries.len() - 1]);
        }
    }
}

/// Whether the value is a row of a column of the shape, so that a source
/// emits it and a builder reads it back.
///
/// An absent value is a row of every column but a union. An integer lies
/// in the range of the declared width. A date/time that is read as text
/// has a text, and that text stands for it.
pub open spec fn conforms(shape: Shape, value: Value) -> bool
    decreases value,
{
    match value {
        Value::Null => !(shape is Union),
        Value::Bool(_) => shape is Bool,
        Value::Int(v) => match shape {
            Shape::Int(ty) => ty.holds(v),
            Shape::DateText(form) => IntType::I64.holds(v) && match form.text_of(v as i64) {
                Some(text) => form.millis_of(text) == Some(v as i64),
                None => false,
            },
            _ => false,
        },
        Value::F32(_) => shape is Float,
        Value::F64(_) => shape is Float,
        Value::Str(_) => shape is Utf8 || shape is Dictionary,
        Value::List(items) => match shape {
            Shape::List(item) => items_conform(*item, items),
            _ => false,
        },
        Value::Record(cells) => match shape {
            Shape::Record { keyed, fields } => cells.len() == fields.len() && cells_conform(
                fields,
                cells,
            ),
            _ => false,
        },
        Value::Mapping(entries) => match shape {
            Shape::Mapping(key, val) => entries_conform(*key, *val, entries),
            _ => false,
        },
        Value::Variant(index, inner) => match shape {
            Shape::Union(variants) => 0 <= index < variants.len() && conforms(
                variants[index].shape,
                *inner,
            ),
            _ => false,
        },
    }
}

/// Whether every item is a row of a column of the shape.
pub open spec fn items_conform(item: Shape, items: Seq<Value>) -> bool
    decreases items,
{
    items.len() > 0 ==> items_conform(item, items.drop_last()) && conforms(item, items.last())
}

/// Whether every cell is a row of the field at its place.
pub open spec fn cells_conform(fields: Seq<Named>, cells: Seq<Value>) -> bool
    decreases cells,
{
    cells.len() > 0 ==> cells_conform(fields, cells.drop_last()) && conforms(
        fields[cells.len() - 1].shape,
        cells.last(),
    )
}

/// Whether every key and every value is a row of its column.
pub open spec fn entries_conform(key: Shape, val: Shape, entries: Seq<(Value, Value)>) -> bool
    decreases entries,
{
    entries.len() > 0 ==> entries_conform(key, val, entries.drop_last()) && conforms(
        key,
        entries.last().0,
    ) && conforms(val, entries.last().1)
}

/// The outcome of a run of events that make up one value: every event but
/// the last leaves the value open.
pub open spec fn run(shape: Shape, partial: Option<Partial>, events: Seq<EventView>) -> Step
    decreases events.len(),
{
    if events.len() == 0 {
        Step::Fail(Error::ProtocolViolation)
    } else {
        let step = advance(shape, partial, events[0]);
        if events.len() == 1 {
            step
        } else {
            match step {
                Step::More(q) => run(shape, Some(q), events.drop_first()),
                Step::Done(_) => Step::Fail(Error::ProtocolViolation),
                Step::Fail(e) => Step::Fail(e),
            }
        }
    }
}

/// The model after all the events, or the first failure.
pub open spec fn feed(shape: Shape, model: Model, events: Seq<EventView>) -> Result<Model, Error>
    decreases events.len(),
{
    if events.len() == 0 {
        Ok(model)
    } else {
        match accept_event(shape, model, events[0]) {
            Ok(m) => feed(shape, m, events.drop_first()),
            Err(e) => Err(e),
        }
    }
}

/// The relation between a sink before and after a run of events: it holds
/// what [`feed`] says, and after a failure what it had read before the
/// event that it refused.
pub open spec fn fed(
    shape: Shape,
    before: Model,
    events: Seq<EventView>,
    outcome: Result<(), Error>,
    after: Model,
) -> bool {
    match feed(shape, before, events) {
        Ok(m) => outcome is Ok && after == m,
        Err(e) => outcome == Err::<(), Error>(e) && exists|k: int|
            0 <= k < events.len() && #[trigger] feed(shape, before, events.take(k)) == Ok::<
                Model,
                Error,
            >(after),
    }
}

/// The events of the rows, one row after another.
pub open spec fn rows_events(shape: Shape, rows: Seq<Value>) -> Seq<EventView> {
    items_events(shape, rows)
}

} // verus!
