//! What holds of every stream: the laws that relate writing and reading.
use vstd::prelude::*;
use crate::array::Array;
use crate::error::Error;
use crate::event::{Container, EventView, FloatType, IntType};
use crate::internal::{columns_hold, unframed, written};
use crate::model::{
    accept_event, advance, begin, cells_conform, conforms, entries_conform, entries_events,
    cells_printable, entries_printable, events_of, feed, fields_events, items_conform, items_events,
    items_printable, printable, rows_events, run, unboxed, Model, Named, Partial, Shape, Step,
    Value,
};

use crate::schema::{record_shape, GenericField};
use crate::source::{records, sequence_events, shortest};

verus! {

/// A run over two parts is the run over the second part from where the
/// first part ends.
pub proof fn lemma_run_concat(
    shape: Shape,
    partial: Option<Partial>,
    first: Seq<EventView>,
    second: Seq<EventView>,
)
    requires
        second.len() > 0,
        run(shape, partial, first) is More,
    ensures
        run(shape, partial, first + second) == run(
            shape,
            Some(run(shape, partial, first)->More_0),
            second,
        ),
    decreases first.len(),
{
    let all = first + second;
    assert(first.len() > 0);
    assert(all[0] == first[0]);
    if first.len() == 1 {
        assert(all.drop_first() =~= second);
    } else {
        let step = advance(shape, partial, first[0]);
        assert(all.drop_first() =~= first.drop_first() + second);
        lemma_run_concat(shape, Some(step->More_0), first.drop_first(), second);
    }
}

/// The events of a value that conforms are at least one.
pub proof fn lemma_events_nonempty(shape: Shape, value: Value)
    requires
        conforms(shape, value),
    ensures
        events_of(shape, value).len() > 0,
{
}

/// The partial value whose innermost open part is replaced: what a
/// container holds after its active child has read one more event.
pub open spec fn container_step(outer: Partial, step: Step) -> Step {
    match step {
        Step::Fail(e) => Step::Fail(e),
        Step::More(q) => Step::More(
            match outer {
                Partial::List { done, inner } => Partial::List { done, inner: Some(Box::new(q)) },
                Partial::Record { done, keyed, inner } => Partial::Record {
                    done,
                    keyed,
                    inner: Some(Box::new(q)),
                },
                Partial::Mapping { entries, key, inner } => Partial::Mapping {
                    entries,
                    key,
                    inner: Some(Box::new(q)),
                },
                Partial::Variant { index, inner } => Partial::Variant {
                    index,
                    inner: Some(Box::new(q)),
                },
            },
        ),
        Step::Done(v) => match outer {
            Partial::List { done, inner } => Step::More(
                Partial::List { done: done.push(v), inner: None },
            ),
            Partial::Record { done, keyed, inner } => Step::More(
                Partial::Record { done: done.push(v), keyed: false, inner: None },
            ),
            Partial::Mapping { entries, key, inner } => Step::More(
                match key {
                    None => Partial::Mapping { entries, key: Some(v), inner: None },
                    Some(k) => Partial::Mapping {
                        entries: entries.push((k, v)),
                        key: None,
                        inner: None,
                    },
                },
            ),
            Partial::Variant { index, inner } => Step::Done(Value::Variant(index, Box::new(v))),
        },
    }
}

/// The shape of the child that reads the next event of an open container,
/// if the container awaits a value.
pub open spec fn active_child(shape: Shape, outer: Partial) -> Option<Shape> {
    match (shape, outer) {
        (Shape::List(item), Partial::List { done, inner }) => Some(*item),
        (Shape::Record { keyed, fields }, Partial::Record { done, keyed: named, inner }) => if done.len()
            < fields.len() && (keyed ==> named) {
            Some(fields[done.len() as int].shape)
        } else {
            None
        },
        (Shape::Mapping(key_shape, val_shape), Partial::Mapping { entries, key, inner }) => Some(
            if key is None {
                *key_shape
            } else {
                *val_shape
            },
        ),
        (Shape::Union(variants), Partial::Variant { index, inner }) => if 0 <= index
            < variants.len() {
            Some(variants[index].shape)
        } else {
            None
        },
        _ => None,
    }
}

/// The open part of a partial value.
pub open spec fn inner_of(outer: Partial) -> Option<Partial> {
    match outer {
        Partial::List { done, inner } => unboxed(inner),
        Partial::Record { done, keyed, inner } => unboxed(inner),
        Partial::Mapping { entries, key, inner } => unboxed(inner),
        Partial::Variant { index, inner } => unboxed(inner),
    }
}

/// A container hands the events of one value to its active child: where
/// the child reads them as one value, the container is what
/// `container_step` says.
pub proof fn lemma_lift(shape: Shape, outer: Partial, events: Seq<EventView>)
    requires
        active_child(shape, outer) is Some,
        run(active_child(shape, outer).unwrap(), inner_of(outer), events) is Done,
    ensures
        run(shape, Some(outer), events) == container_step(
            outer,
            run(active_child(shape, outer).unwrap(), inner_of(outer), events),
        ),
    decreases events.len(),
{
    let child = active_child(shape, outer).unwrap();
    let step = advance(child, inner_of(outer), events[0]);
    assert(events.len() > 0);
    assert(!(step is Fail));
    assert(inner_of(outer) is None ==> !(events[0] is End));
    assert(advance(shape, Some(outer), events[0]) == container_step(outer, step));
    if events.len() > 1 {
        let next = container_step(outer, step)->More_0;
        assert(active_child(shape, next) == Some(child));
        assert(inner_of(next) == Some(step->More_0));
        lemma_lift(shape, next, events.drop_first());
    }
}

/// The events of the items of a list, read inside the list, add the items
/// to the list.
pub proof fn lemma_items_run(item: Shape, done: Seq<Value>, items: Seq<Value>)
    requires
        items.len() > 0,
        items_conform(item, items),
    ensures
        run(
            Shape::List(Box::new(item)),
            Some(Partial::List { done, inner: None }),
            items_events(item, items),
        ) == Step::More(Partial::List { done: done + items, inner: None }),
    decreases items,
{
    let shape = Shape::List(Box::new(item));
    let start = Partial::List { done, inner: None };
    let init = items.drop_last();
    let last = items.last();
    let tail = events_of(item, last);
    lemma_encode(item, last);
    lemma_events_nonempty(item, last);
    if init.len() == 0 {
        assert(items_events(item, init) =~= Seq::<EventView>::empty());
        assert(items_events(item, items) =~= tail);
        lemma_lift(shape, start, tail);
        assert(done.push(last) =~= done + items);
    } else {
        lemma_items_run(item, done, init);
        let middle = Partial::List { done: done + init, inner: None };
        lemma_run_concat(shape, Some(start), items_events(item, init), tail);
        lemma_lift(shape, middle, tail);
        assert((done + init).push(last) =~= done + items);
    }
}

/// The events of the first fields of a record, read inside the record,
/// are its first fields.
pub proof fn lemma_cells_run(keyed: bool, fields: Seq<Named>, cells: Seq<Value>)
    requires
        0 < cells.len() <= fields.len(),
        cells_conform(fields, cells),
    ensures
        run(
            Shape::Record { keyed, fields },
            Some(Partial::Record { done: Seq::empty(), keyed: false, inner: None }),
            fields_events(keyed, fields, cells),
        ) == Step::More(Partial::Record { done: cells, keyed: false, inner: None }),
    decreases cells,
{
    let shape = Shape::Record { keyed, fields };
    let start = Partial::Record { done: Seq::empty(), keyed: false, inner: None };
    let init = cells.drop_last();
    let last = cells.last();
    let field = fields[cells.len() - 1];
    let value = events_of(field.shape, last);
    lemma_encode(field.shape, last);
    lemma_events_nonempty(field.shape, last);
    let before = Partial::Record { done: init, keyed: false, inner: None };
    let named = Partial::Record { done: init, keyed: true, inner: None };
    let after = Step::More(Partial::Record { done: cells, keyed: false, inner: None });
    assert(init.push(last) =~= cells);
    let tail = if keyed {
        seq![EventView::Str(field.name)] + value
    } else {
        value
    };
    // the last field, read after the fields before it
    assert(run(shape, Some(before), tail) == after) by {
        if keyed {
            let key = seq![EventView::Str(field.name)];
            assert(run(shape, Some(before), key) == Step::More(named));
            lemma_run_concat(shape, Some(before), key, value);
            lemma_lift(shape, named, value);
        } else {
            lemma_lift(shape, before, value);
        }
    }
    if init.len() == 0 {
        assert(init =~= Seq::<Value>::empty());
        assert(fields_events(keyed, fields, init) =~= Seq::<EventView>::empty());
        assert(fields_events(keyed, fields, cells) =~= tail);
    } else {
        lemma_cells_run(keyed, fields, init);
        lemma_run_concat(shape, Some(start), fields_events(keyed, fields, init), tail);
    }
}

/// The events of the entries of a map, read inside the map, add the
/// entries to the map.
pub proof fn lemma_entries_run(
    key: Shape,
    val: Shape,
    done: Seq<(Value, Value)>,
    entries: Seq<(Value, Value)>,
)
    requires
        entries.len() > 0,
        entries_conform(key, val, entries),
    ensures
        run(
            Shape::Mapping(Box::new(key), Box::new(val)),
            Some(Partial::Mapping { entries: done, key: None, inner: None }),
            entries_events(key, val, entries),
        ) == Step::More(Partial::Mapping { entries: done + entries, key: None, inner: None }),
    decreases entries,
{
    let shape = Shape::Mapping(Box::new(key), Box::new(val));
    let start = Partial::Mapping { entries: done, key: None, inner: None };
    let init = entries.drop_last();
    let last = entries.last();
    let first = events_of(key, last.0);
    let second = events_of(val, last.1);
    lemma_encode(key, last.0);
    lemma_encode(val, last.1);
    lemma_events_nonempty(key, last.0);
    lemma_events_nonempty(val, last.1);
    let before = Partial::Mapping { entries: done + init, key: None, inner: None };
    let keyed = Partial::Mapping { entries: done + init, key: Some(last.0), inner: None };
    let after = Step::More(Partial::Mapping { entries: done + entries, key: None, inner: None });
    assert((done + init).push((last.0, last.1)) =~= done + entries);
    assert(run(shape, Some(before), first + second) == after) by {
        lemma_lift(shape, before, first);
        lemma_run_concat(shape, Some(before), first, second);
        lemma_lift(shape, keyed, second);
    }
    if init.len() == 0 {
        assert(done + init =~= done);
        assert(entries_events(key, val, entries) =~= first + second);
    } else {
        lemma_entries_run(key, val, done, init);
        assert(entries_events(key, val, entries) =~= entries_events(key, val, init) + (first
            + second));
        lemma_run_concat(shape, Some(start), entries_events(key, val, init), first + second);
    }
}

/// Reading what a source emits gives the value back: the events of a value
/// that conforms to the shape are read, from the start of a value, as that
/// value, and no event before the last completes it.
pub proof fn lemma_encode(shape: Shape, value: Value)
    requires
        conforms(shape, value),
    ensures
        run(shape, None, events_of(shape, value)) == Step::Done(value),
    decreases value,
{
    let events = events_of(shape, value);
    match value {
        Value::List(items) => {
            let item = *shape->List_0;
            let open = seq![EventView::Start(Container::List)];
            let close = seq![EventView::End(Container::List)];
            let empty = Partial::List { done: Seq::empty(), inner: None };
            assert(run(shape, None, open) == Step::More(empty));
            if items.len() == 0 {
                assert(items_events(item, items) =~= Seq::<EventView>::empty());
                assert(events =~= open + close);
                lemma_run_concat(shape, None, open, close);
                assert(items =~= Seq::<Value>::empty());
            } else {
                let inside = items_events(item, items);
                lemma_items_run(item, Seq::empty(), items);
                assert(Seq::<Value>::empty() + items =~= items);
                assert(events =~= open + (inside + close));
                lemma_run_concat(shape, None, open, inside + close);
                lemma_run_concat(shape, Some(empty), inside, close);
            }
        },
        Value::Record(cells) => {
            let keyed = shape->Record_keyed;
            let fields = shape->Record_fields;
            let open = seq![EventView::Start(Shape::record_container(keyed))];
            let close = seq![EventView::End(Shape::record_container(keyed))];
            let empty = Partial::Record { done: Seq::empty(), keyed: false, inner: None };
            assert(run(shape, None, open) == Step::More(empty));
            if cells.len() == 0 {
                assert(fields_events(keyed, fields, cells) =~= Seq::<EventView>::empty());
                assert(events =~= open + close);
                lemma_run_concat(shape, None, open, close);
                assert(cells =~= Seq::<Value>::empty());
            } else {
                let inside = fields_events(keyed, fields, cells);
                lemma_cells_run(keyed, fields, cells);
                assert(events =~= open + (inside + close));
                lemma_run_concat(shape, None, open, inside + close);
                lemma_run_concat(shape, Some(empty), inside, close);
            }
        },
        Value::Mapping(entries) => {
            let key = *shape->Mapping_0;
            let val = *shape->Mapping_1;
            let open = seq![EventView::Start(Container::Mapping)];
            let close = seq![EventView::End(Container::Mapping)];
            let empty = Partial::Mapping { entries: Seq::empty(), key: None, inner: None };
            assert(run(shape, None, open) == Step::More(empty));
            if entries.len() == 0 {
                assert(entries_events(key, val, entries) =~= Seq::<EventView>::empty());
                assert(events =~= open + close);
                lemma_run_concat(shape, None, open, close);
                assert(entries =~= Seq::<(Value, Value)>::empty());
            } else {
                let inside = entries_events(key, val, entries);
                lemma_entries_run(key, val, Seq::empty(), entries);
                assert(Seq::<(Value, Value)>::empty() + entries =~= entries);
                assert(events =~= open + (inside + close));
                lemma_run_concat(shape, None, open, inside + close);
                lemma_run_concat(shape, Some(empty), inside, close);
            }
        },
        Value::Variant(index, inner) => {
            let variants = shape->Union_0;
            let tag = seq![EventView::Variant(variants[index].name, index)];
            let chosen = Partial::Variant { index, inner: None };
            let inside = events_of(variants[index].shape, *inner);
            lemma_encode(variants[index].shape, *inner);
            lemma_events_nonempty(variants[index].shape, *inner);
            assert(run(shape, None, tag) == Step::More(chosen));
            lemma_run_concat(shape, None, tag, inside);
            lemma_lift(shape, chosen, inside);
        },
        _ => {},
    }
}

/// Feeding two parts is feeding the second part to what the first part
/// left.
pub proof fn lemma_feed_concat(
    shape: Shape,
    model: Model,
    first: Seq<EventView>,
    second: Seq<EventView>,
)
    ensures
        feed(shape, model, first + second) == match feed(shape, model, first) {
            Ok(m) => feed(shape, m, second),
            Err(e) => Err(e),
        },
    decreases first.len(),
{
    let all = first + second;
    if first.len() == 0 {
        assert(all =~= second);
    } else {
        assert(all[0] == first[0]);
        assert(all.drop_first() =~= first.drop_first() + second);
        match accept_event(shape, model, first[0]) {
            Ok(m) => lemma_feed_concat(shape, m, first.drop_first(), second),
            Err(e) => {},
        }
    }
}

/// Feeding one more event is accepting it after the events before it.
pub proof fn lemma_feed_push(shape: Shape, model: Model, events: Seq<EventView>, event: EventView)
    ensures
        feed(shape, model, events.push(event)) == match feed(shape, model, events) {
            Ok(m) => accept_event(shape, m, event),
            Err(e) => Err(e),
        },
{
    assert(events.push(event) =~= events + seq![event]);
    lemma_feed_concat(shape, model, events, seq![event]);
    match feed(shape, model, events) {
        Ok(m) => {
            assert(seq![event].drop_first() =~= Seq::<EventView>::empty());
            match accept_event(shape, m, event) {
                Ok(m2) => {
                    assert(feed(shape, m2, Seq::<EventView>::empty()) == Ok::<Model, Error>(m2));
                },
                Err(e) => {},
            }
        },
        Err(e) => {},
    }
}

/// A run that completes a value adds the value to the rows; a run that
/// leaves a value open leaves the rows as they were.
pub proof fn lemma_feed_run(
    shape: Shape,
    rows: Seq<Value>,
    partial: Option<Partial>,
    events: Seq<EventView>,
)
    requires
        events.len() > 0,
    ensures
        feed(shape, Model { rows, partial }, events) == match run(shape, partial, events) {
            Step::Done(v) => Ok::<Model, Error>(Model { rows: rows.push(v), partial: None }),
            Step::More(q) => Ok(Model { rows, partial: Some(q) }),
            Step::Fail(e) => feed(shape, Model { rows, partial }, events),
        },
    decreases events.len(),
{
    let step = advance(shape, partial, events[0]);
    if events.len() == 1 {
        assert(events.drop_first() =~= Seq::<EventView>::empty());
        match accept_event(shape, Model { rows, partial }, events[0]) {
            Ok(m) => {
                assert(feed(shape, m, Seq::<EventView>::empty()) == Ok::<Model, Error>(m));
            },
            Err(e) => {},
        }
    } else {
        match step {
            Step::More(q) => lemma_feed_run(shape, rows, Some(q), events.drop_first()),
            _ => {},
        }
    }
}

/// A value that conforms can be emitted.
pub proof fn lemma_conforms_printable(shape: Shape, value: Value)
    requires
        conforms(shape, value),
    ensures
        printable(shape, value),
    decreases value,
{
    match value {
        Value::List(items) => lemma_items_printable(*shape->List_0, items),
        Value::Record(cells) => lemma_cells_printable(shape->Record_fields, cells),
        Value::Mapping(entries) => lemma_entries_printable(
            *shape->Mapping_0,
            *shape->Mapping_1,
            entries,
        ),
        Value::Variant(index, inner) => lemma_conforms_printable(
            shape->Union_0[index].shape,
            *inner,
        ),
        _ => {},
    }
}

/// Items that conform can be emitted.
pub proof fn lemma_items_printable(item: Shape, items: Seq<Value>)
    requires
        items_conform(item, items),
    ensures
        items_printable(item, items),
    decreases items,
{
    if items.len() > 0 {
        lemma_items_printable(item, items.drop_last());
        lemma_conforms_printable(item, items.last());
    }
}

/// Cells that conform can be emitted.
pub proof fn lemma_cells_printable(fields: Seq<Named>, cells: Seq<Value>)
    requires
        cells_conform(fields, cells),
    ensures
        cells_printable(fields, cells),
    decreases cells,
{
    if cells.len() > 0 {
        lemma_cells_printable(fields, cells.drop_last());
        lemma_conforms_printable(fields[cells.len() - 1].shape, cells.last());
    }
}

/// Entries that conform can be emitted.
pub proof fn lemma_entries_printable(key: Shape, val: Shape, entries: Seq<(Value, Value)>)
    requires
        entries_conform(key, val, entries),
    ensures
        entries_printable(key, val, entries),
    decreases entries,
{
    if entries.len() > 0 {
        lemma_entries_printable(key, val, entries.drop_last());
        lemma_conforms_printable(key, entries.last().0);
        lemma_conforms_printable(val, entries.last().1);
    }
}

/// Round trip, for one column: the events that a source emits for rows
/// that conform to the shape are read by a builder of the shape, after
/// whatever rows it holds, as those rows; and a source can emit them.
///
/// A source emits `rows_events(shape, rows)` for a column whose rows are
/// `rows`, and a builder's rows after a stream are what `feed` says. So
/// writing a batch and reading it gives the batch, and reading a column
/// and writing it gives the column's rows, absent rows included.
pub proof fn law_round_trip(shape: Shape, held: Seq<Value>, rows: Seq<Value>)
    requires
        items_conform(shape, rows),
    ensures
        feed(shape, Model { rows: held, partial: None }, rows_events(shape, rows)) == Ok::<
            Model,
            Error,
        >(Model { rows: held + rows, partial: None }),
        items_printable(shape, rows),
    decreases rows.len(),
{
    lemma_items_printable(shape, rows);
    let start = Model { rows: held, partial: None };
    if rows.len() == 0 {
        assert(rows_events(shape, rows) =~= Seq::<EventView>::empty());
        assert(held + rows =~= held);
    } else {
        let init = rows.drop_last();
        let last = rows.last();
        law_round_trip(shape, held, init);
        lemma_encode(shape, last);
        lemma_events_nonempty(shape, last);
        lemma_feed_concat(shape, start, rows_events(shape, init), events_of(shape, last));
        lemma_feed_run(shape, held + init, None, events_of(shape, last));
        assert((held + init).push(last) =~= held + rows);
    }
}

/// Null preservation, on write: an absent value is read, at the start of
/// a value of any column but a union, as an absent row, whatever rows the
/// column holds.
pub proof fn law_null_written(shape: Shape, held: Seq<Value>)
    requires
        !(shape is Union),
    ensures
        accept_event(shape, Model { rows: held, partial: None }, EventView::Null) == Ok::<
            Model,
            Error,
        >(Model { rows: held.push(Value::Null), partial: None }),
{
}

/// Null preservation, on read: an absent row is emitted as `Null`, in a
/// column of any shape.
pub proof fn law_null_read(shape: Shape)
    ensures
        events_of(shape, Value::Null) == seq![EventView::Null],
        printable(shape, Value::Null),
{
}

/// Numeric coercion: an integer of any width is read into an integer
/// column as the same number where the column's width holds it, and is
/// refused with `EncodingError` where it does not; it is never wrapped.
/// Where the column is at least as wide as the event, the number is always
/// read.
pub proof fn law_integer_coercion(column: IntType, width: IntType, value: int)
    ensures
        begin(Shape::Int(column), EventView::Int(width, value)) == if column.holds(value) {
            Step::Done(Value::Int(value))
        } else {
            Step::Fail(Error::EncodingError)
        },
        width.holds(value) && column.min() <= width.min() && width.max() <= column.max()
            ==> column.holds(value),
        column.holds(value) ==> events_of(Shape::Int(column), Value::Int(value)) == seq![
            EventView::Int(column, value),
        ],
{
}

/// Floating point numbers: a number of either width is read into a
/// floating point column of any declared width as the number it is, and
/// emitted as it was read. No arithmetic touches it.
pub proof fn law_float_kept(column: FloatType, narrow: u32, wide: u64)
    ensures
        begin(Shape::Float(column), EventView::F32(narrow)) == Step::Done(Value::F32(narrow)),
        begin(Shape::Float(column), EventView::F64(wide)) == Step::Done(Value::F64(wide)),
        events_of(Shape::Float(column), Value::F32(narrow)) == seq![EventView::F32(narrow)],
        events_of(Shape::Float(column), Value::F64(wide)) == seq![EventView::F64(wide)],
{
}

/// Malformed stream: the end of a container that was not opened is
/// refused with `ProtocolViolation` by a builder of any shape that is at
/// the start of a value, and the builder's model is as it was.
pub proof fn law_unmatched_end(shape: Shape, held: Seq<Value>, container: Container)
    ensures
        accept_event(shape, Model { rows: held, partial: None }, EventView::End(container))
            == Err::<Model, Error>(Error::ProtocolViolation),
        forall|outcome: Result<(), Error>, after: Model|
            crate::model::accepted(
                shape,
                Model { rows: held, partial: None },
                EventView::End(container),
                outcome,
                after,
            ) ==> outcome == Err::<(), Error>(Error::ProtocolViolation) && after == (Model {
                rows: held,
                partial: None,
            }),
{
}

/// Round trip, for the conversions of one column: the sequence that the
/// replay of a column emits is converted to a column with the same rows,
/// and the column of a sequence of rows that conform is replayed as that
/// sequence. Both follow from this: the rows that the sequence of
/// conforming rows makes in an empty column are those rows.
pub proof fn law_sequence_round_trip(shape: Shape, rows: Seq<Value>)
    requires
        items_conform(shape, rows),
    ensures
        written(shape, sequence_events(shape, rows)) == Ok::<Seq<Value>, Error>(rows),
        items_printable(shape, rows),
{
    let events = sequence_events(shape, rows);
    law_round_trip(shape, Seq::empty(), rows);
    assert(unframed(events) =~= rows_events(shape, rows));
    assert(Seq::<Value>::empty() + rows =~= rows);
}

/// All columns have the same number of rows where they hold the same
/// records.
pub proof fn lemma_shortest_of_equal(columns: Seq<Array>, len: nat)
    requires
        columns.len() > 0,
        forall|j: int| 0 <= j < columns.len() ==> (#[trigger] columns[j]).rows().len() == len,
    ensures
        shortest(columns) == len,
    decreases columns.len(),
{
    if columns.len() > 1 {
        assert forall|j: int| 0 <= j < columns.drop_last().len() implies (
        #[trigger] columns.drop_last()[j]).rows().len() == len by {
            assert(columns.drop_last()[j] == columns[j]);
        }
        lemma_shortest_of_equal(columns.drop_last(), len);
        assert(columns.last() == columns[columns.len() - 1]);
    }
}

/// Round trip, for the conversions of records: where there is a field, the
/// columns that hold a batch of present records that conform to the
/// fields are replayed as the sequence of those records, and that
/// sequence is converted to columns that hold them.
///
/// Without a field there is no column to tell how many records there
/// were; and an absent record leaves no trace in the columns of its
/// fields. Both are left out.
pub proof fn law_records_round_trip(
    fields: Seq<GenericField>,
    rows: Seq<Value>,
    columns: Seq<Array>,
)
    requires
        fields.len() > 0,
        items_conform(record_shape(fields), rows),
        forall|i: int| 0 <= i < rows.len() ==> (#[trigger] rows[i]) is Record,
        columns_hold(rows, fields, columns),
    ensures
        written(record_shape(fields), sequence_events(record_shape(fields), rows)) == Ok::<
            Seq<Value>,
            Error,
        >(rows),
        records(columns, shortest(columns)) == rows,
{
    let shape = record_shape(fields);
    law_sequence_round_trip(shape, rows);
    lemma_shortest_of_equal(columns, rows.len());
    lemma_conform_each(shape, rows);
    assert forall|i: int| 0 <= i < rows.len() implies records(columns, rows.len())[i]
        == rows[i] by {
        let cells = rows[i]->Record_0;
        assert(conforms(shape, rows[i]));
        assert(cells.len() == fields.len());
        assert(records(columns, rows.len())[i]->Record_0 =~= cells);
    }
    assert(records(columns, rows.len()) =~= rows);
}

/// Every one of the items that conform conforms.
pub proof fn lemma_conform_each(shape: Shape, items: Seq<Value>)
    requires
        items_conform(shape, items),
    ensures
        forall|k: int| 0 <= k < items.len() ==> conforms(shape, #[trigger] items[k]),
    decreases items.len(),
{
    if items.len() > 0 {
        lemma_conform_each(shape, items.drop_last());
        assert forall|k: int| 0 <= k < items.len() implies conforms(shape, #[trigger] items[k]) by {
            if k < items.len() - 1 {
                assert(items.drop_last()[k] == items[k]);
            }
        }
    }
}

} // verus!
