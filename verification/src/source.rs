//! Columns replayed as events.
use vstd::prelude::*;
use crate::array::{entries, lemma_columns, lemma_columns_fit, Array, Values};
use crate::datetime::DateTimeForm;
use crate::extract::{conforming, extract_buffers, readable};
use crate::error::{Error, Result};
use crate::event::{int_event, views, Container, Event, EventView, Float, IntType};
use crate::model::{
    entries_events, events_of, fields_events, items_events, items_printable, lemma_printable,
    printable, rows_events, Shape, Value,
};
use crate::schema::{
    lemma_named_children, named_fields, record_shape, GenericDataType, GenericField, Strategy,
};

verus! {

/// Appends one event.
pub fn push_event(out: &mut Vec<Event>, event: Event)
    ensures
        views(final(out)@) == views(old(out)@).push(event@),
        final(out).len() == old(out).len() + 1,
{
    out.push(event);
    assert(views(out@) =~= views(old(out)@).push(event@));
}

/// The form in which the field gives its dates and times as text, if it
/// does.
pub fn text_form(field: &GenericField) -> (r: Option<DateTimeForm>)
    ensures
        match r {
            Some(form) => field.shape() == Shape::DateText(form),
            None => !(field.shape() is DateText),
        },
{
    match field.data_type {
        GenericDataType::Date64 => match field.strategy {
            Some(Strategy::NaiveStrAsDate64) => Some(DateTimeForm::Naive),
            Some(Strategy::UtcStrAsDate64) => Some(DateTimeForm::Utc),
            _ => None,
        },
        _ => None,
    }
}

/// Emits row `row` of a primitive column.
fn emit_primitive(
    field: &GenericField,
    validity: &Vec<bool>,
    values: &Values,
    row: usize,
    out: &mut Vec<Event>,
) -> (r: Result<()>)
    requires
        values.wf(validity.len() as nat),
        row < validity.len(),
        (Array::Primitive { validity: *validity, values: *values }).fits(field.shape()),
    ensures
        ({
            let value = (Array::Primitive { validity: *validity, values: *values }).rows()[row as int];
            match r {
                Ok(()) => printable(field.shape(), value) && views(final(out)@) == views(
                    old(out)@,
                ) + events_of(field.shape(), value),
                Err(e) => e == Error::EncodingError && !printable(field.shape(), value),
            }
        }),
{
    let ghost before = views(out@);
    if !validity[row] {
        push_event(out, Event::Null);
        assert(before.push(EventView::Null) =~= before + seq![EventView::Null]);
        return Ok(());
    }
    match values {
        Values::Null => {
            push_event(out, Event::Null);
            assert(before.push(EventView::Null) =~= before + seq![EventView::Null]);
        },
        Values::Bool(v) => {
            push_event(out, Event::Bool(v[row]));
            assert(before.push(EventView::Bool(v[row as int])) =~= before + seq![
                EventView::Bool(v[row as int]),
            ]);
        },
        Values::Int(ty, v) => {
            let value = v[row];
            assert(ty.holds(v[row as int] as int));
            match text_form(field) {
                Some(form) => {
                    let text = match form.print(value as i64) {
                        Ok(text) => text,
                        Err(e) => {
                            return Err(e);
                        }};
                    let ghost e = EventView::Str(text@);
                    push_event(out, Event::Str(text));
                    assert(before.push(e) =~= before + seq![e]);
                },
                None => {
                    let ghost e = EventView::Int(*ty, value as int);
                    push_event(out, int_event(*ty, value));
                    assert(before.push(e) =~= before + seq![e]);
                },
            }
        },
        Values::Float(_, v) => match v[row] {
            Float::F32(bits) => {
                push_event(out, Event::F32(bits));
                assert(before.push(EventView::F32(bits)) =~= before + seq![EventView::F32(bits)]);
            },
            Float::F64(bits) => {
                push_event(out, Event::F64(bits));
                assert(before.push(EventView::F64(bits)) =~= before + seq![EventView::F64(bits)]);
            },
        },
        Values::Utf8(v) => {
            let ghost e = EventView::Str(v[row as int]@);
            push_event(out, Event::Str(v[row].clone()));
            assert(before.push(e) =~= before + seq![e]);
        },
    }
    Ok(())
}

/// What `emit_row` and its helpers promise: on success the events of the
/// value follow what was there; the only failure is a date/time that has
/// no text.
pub open spec fn emitted(
    shape: Shape,
    value: Value,
    before: Seq<Event>,
    outcome: Result<()>,
    after: Seq<Event>,
) -> bool {
    match outcome {
        Ok(()) => printable(shape, value) && views(after) == views(before) + events_of(
            shape,
            value,
        ),
        Err(e) => e == Error::EncodingError && !printable(shape, value),
    }
}

/// Emits the items `from..to` of a list.
fn emit_items(field: &GenericField, items: &Array, from: usize, to: usize, out: &mut Vec<Event>) -> (r:
    Result<()>)
    requires
        field.supported(),
        items.wf(),
        items.fits(field.shape()),
        from <= to <= items.rows().len(),
    ensures
        ({
            let part = items.rows().subrange(from as int, to as int);
            match r {
                Ok(()) => views(final(out)@) == views(old(out)@) + items_events(
                    field.shape(),
                    part,
                ) && forall|k: int| 0 <= k < part.len() ==> printable(field.shape(), part[k]),
                Err(e) => e == Error::EncodingError && exists|k: int|
                    0 <= k < part.len() && !printable(field.shape(), #[trigger] part[k]),
            }
        }),
    decreases items, 2nat, 0nat,
{
    let mut k = from;
    let ghost start = views(out@);
    assert(items.rows().subrange(from as int, from as int) =~= Seq::<Value>::empty());
    assert(start + Seq::<EventView>::empty() =~= start);
    while k < to
        invariant
            from <= k <= to <= items.rows().len(),
            field.supported(),
            items.wf(),
            items.fits(field.shape()),
            views(out@) == start + items_events(
                field.shape(),
                items.rows().subrange(from as int, k as int),
            ),
            forall|i: int|
                from <= i < k ==> printable(field.shape(), #[trigger] items.rows()[i]),
        decreases to - k,
    {
        let ghost mid = views(out@);
        let ghost part = items.rows().subrange(from as int, k as int);
        let ghost next = items.rows().subrange(from as int, k + 1);
        proof {
            assert(next.drop_last() =~= part);
            assert(next.last() == items.rows()[k as int]);
        }
        match emit_row(field, items, k, out) {
            Ok(()) => {},
            Err(e) => {
                proof {
                    let whole = items.rows().subrange(from as int, to as int);
                    assert(whole[k - from] == items.rows()[k as int]);
                }
                return Err(e);
            },
        }
        proof {
            assert(views(out@) =~= start + items_events(field.shape(), next));
        }
        k = k + 1;
    }
    Ok(())
}

/// Emits row `row` of every column, each after its name where `keyed` is
/// set.
fn emit_fields(
    fields: &Vec<GenericField>,
    keyed: bool,
    columns: &Vec<Array>,
    row: usize,
    out: &mut Vec<Event>,
) -> (r: Result<()>)
    requires
        columns.len() == fields.len(),
        forall|j: int|
            0 <= j < columns.len() ==> {
                &&& (#[trigger] columns[j]).wf()
                &&& columns[j].fits(fields[j].shape())
                &&& fields[j].supported()
                &&& row < columns[j].rows().len()
            },
    ensures
        ({
            let cells = Seq::new(columns.len() as nat, |j: int| columns[j].rows()[row as int]);
            match r {
                Ok(()) => views(final(out)@) == views(old(out)@) + fields_events(
                    keyed,
                    named_fields(fields@),
                    cells,
                ) && forall|j: int|
                    0 <= j < cells.len() ==> printable(
                        named_fields(fields@)[j].shape,
                        #[trigger] cells[j],
                    ),
                Err(e) => e == Error::EncodingError && exists|j: int|
                    0 <= j < cells.len() && !printable(
                        named_fields(fields@)[j].shape,
                        #[trigger] cells[j],
                    ),
            }
        }),
    decreases columns, 2nat, 0nat,
{
    let n = columns.len();
    let mut j: usize = 0;
    let ghost start = views(out@);
    let ghost cells = Seq::new(columns.len() as nat, |j: int| columns[j].rows()[row as int]);
    let ghost named = named_fields(fields@);
    assert(cells.take(0) =~= Seq::<Value>::empty());
    assert(start + Seq::<EventView>::empty() =~= start);
    while j < n
        invariant
            j <= n,
            n == columns.len(),
            columns.len() == fields.len(),
            cells == Seq::new(columns.len() as nat, |j: int| columns[j].rows()[row as int]),
            named == named_fields(fields@),
            forall|j: int|
                0 <= j < columns.len() ==> {
                    &&& (#[trigger] columns[j]).wf()
                    &&& columns[j].fits(fields[j].shape())
                    &&& fields[j].supported()
                    &&& row < columns[j].rows().len()
                },
            views(out@) == start + fields_events(keyed, named, cells.take(j as int)),
            forall|i: int| 0 <= i < j ==> printable(named[i].shape, #[trigger] cells[i]),
        decreases n - j,
    {
        let ghost part = cells.take(j as int);
        let ghost next = cells.take(j + 1);
        let ghost mid = views(out@);
        proof {
            assert(next.drop_last() =~= part);
            assert(next.last() == cells[j as int]);
            assert(named[j as int].shape == fields[j as int].shape());
            assert(named[j as int].name == fields[j as int].name@);
        }
        if keyed {
            push_event(out, Event::Str(fields[j].name.clone()));
        }
        match emit_row(&fields[j], &columns[j], row, out) {
            Ok(()) => {},
            Err(e) => {
                return Err(e);
            },
        }
        proof {
            let value = events_of(named[j as int].shape, cells[j as int]);
            if keyed {
                let key = EventView::Str(named[j as int].name);
                assert(mid.push(key) + value =~= mid + (seq![key] + value));
            }
            assert(views(out@) =~= start + fields_events(keyed, named, next));
        }
        j = j + 1;
    }
    assert(cells.take(n as int) =~= cells);
    Ok(())
}

/// Emits the entries `from..to` of a map: key, value, key, value.
fn emit_entries(
    key_field: &GenericField,
    val_field: &GenericField,
    array: &Array,
    keys: &Array,
    vals: &Array,
    from: usize,
    to: usize,
    out: &mut Vec<Event>,
) -> (r: Result<()>)
    requires
        array matches Array::Mapping { validity, offsets, keys: held_keys, entries: held_vals }
            && **held_keys == *keys && **held_vals == *vals,
        key_field.supported(),
        val_field.supported(),
        keys.wf(),
        vals.wf(),
        keys.fits(key_field.shape()),
        vals.fits(val_field.shape()),
        from <= to,
        to <= keys.rows().len(),
        to <= vals.rows().len(),
    ensures
        ({
            let part = entries(keys.rows(), vals.rows(), from as int, to as int);
            match r {
                Ok(()) => views(final(out)@) == views(old(out)@) + entries_events(
                    key_field.shape(),
                    val_field.shape(),
                    part,
                ) && forall|k: int|
                    0 <= k < part.len() ==> printable(key_field.shape(), (#[trigger] part[k]).0)
                        && printable(val_field.shape(), part[k].1),
                Err(e) => e == Error::EncodingError && exists|k: int|
                    0 <= k < part.len() && !(printable(key_field.shape(), (#[trigger] part[k]).0)
                        && printable(val_field.shape(), part[k].1)),
            }
        }),
    decreases array, 0nat, 0nat,
{
    let mut k = from;
    let ghost start = views(out@);
    assert(entries(keys.rows(), vals.rows(), from as int, from as int) =~= Seq::<
        (Value, Value),
    >::empty());
    assert(start + Seq::<EventView>::empty() =~= start);
    while k < to
        invariant
            from <= k <= to,
            to <= keys.rows().len(),
            to <= vals.rows().len(),
            array matches Array::Mapping { validity, offsets, keys: held_keys, entries: held_vals }
                && **held_keys == *keys && **held_vals == *vals,
            key_field.supported(),
            val_field.supported(),
            keys.wf(),
            vals.wf(),
            keys.fits(key_field.shape()),
            vals.fits(val_field.shape()),
            views(out@) == start + entries_events(
                key_field.shape(),
                val_field.shape(),
                entries(keys.rows(), vals.rows(), from as int, k as int),
            ),
            forall|i: int|
                from <= i < k ==> printable(key_field.shape(), #[trigger] keys.rows()[i]),
            forall|i: int|
                from <= i < k ==> printable(val_field.shape(), #[trigger] vals.rows()[i]),
        decreases to - k,
    {
        let ghost mid = views(out@);
        let ghost part = entries(keys.rows(), vals.rows(), from as int, k as int);
        let ghost next = entries(keys.rows(), vals.rows(), from as int, k + 1);
        let ghost whole = entries(keys.rows(), vals.rows(), from as int, to as int);
        proof {
            assert(next.drop_last() =~= part);
            assert(next.last() == (keys.rows()[k as int], vals.rows()[k as int]));
            assert(whole[k - from] == (keys.rows()[k as int], vals.rows()[k as int]));
        }
        match emit_row(key_field, keys, k, out) {
            Ok(()) => {},
            Err(e) => {
                return Err(e);
            },
        }
        match emit_row(val_field, vals, k, out) {
            Ok(()) => {},
            Err(e) => {
                return Err(e);
            },
        }
        proof {
            assert(printable(key_field.shape(), keys.rows()[k as int]));
            assert(printable(val_field.shape(), vals.rows()[k as int]));
            let a = events_of(key_field.shape(), keys.rows()[k as int]);
            let b = events_of(val_field.shape(), vals.rows()[k as int]);
            assert(mid + a + b =~= start + (entries_events(
                key_field.shape(),
                val_field.shape(),
                part,
            ) + a + b));
        }
        k = k + 1;
    }
    proof {
        let whole = entries(keys.rows(), vals.rows(), from as int, to as int);
        assert forall|i: int| 0 <= i < whole.len() implies printable(
            key_field.shape(),
            (#[trigger] whole[i]).0,
        ) && printable(val_field.shape(), whole[i].1) by {
            assert(printable(key_field.shape(), keys.rows()[from + i]));
            assert(printable(val_field.shape(), vals.rows()[from + i]));
        }
    }
    Ok(())
}

/// Emits one `Null`.
fn emit_null(out: &mut Vec<Event>)
    ensures
        views(final(out)@) == views(old(out)@) + seq![EventView::Null],
{
    let ghost before = views(out@);
    push_event(out, Event::Null);
    assert(before.push(EventView::Null) =~= before + seq![EventView::Null]);
}

/// Emits row `row` of a dictionary-encoded column.
fn emit_dictionary(field: &GenericField, array: &Array, row: usize, out: &mut Vec<Event>) -> (r:
    Result<()>)
    requires
        array is Dictionary,
        array.wf(),
        row < array.rows().len(),
    ensures
        emitted(field.shape(), array.rows()[row as int], old(out)@, r, final(out)@),
{
    let ghost before = views(out@);
    match array {
        Array::Dictionary { validity, indices, dictionary } => {
            if validity[row] {
                let ghost e = EventView::Str(dictionary[indices[row as int] as int]@);
                push_event(out, Event::Str(dictionary[indices[row]].clone()));
                assert(before.push(e) =~= before + seq![e]);
            } else {
                emit_null(out);
            }
        },
        _ => {},
    }
    Ok(())
}

/// Emits row `row` of a column of lists.
fn emit_list(field: &GenericField, array: &Array, row: usize, out: &mut Vec<Event>) -> (r: Result<
    (),
>)
    requires
        array is List,
        field.supported(),
        array.wf(),
        array.fits(field.shape()),
        row < array.rows().len(),
    ensures
        emitted(field.shape(), array.rows()[row as int], old(out)@, r, final(out)@),
    decreases array, 0nat, 1nat,
{
    let ghost before = views(out@);
    match array {
        Array::List { validity, offsets, items } => {
            if !validity[row] {
                emit_null(out);
                return Ok(());
            }
            assert(offsets[row as int] <= offsets[row + 1] <= offsets@.last());
            let ghost part = items.rows().subrange(
                offsets[row as int] as int,
                offsets[row + 1] as int,
            );
            assert(array.rows()[row as int] == Value::List(part));
            push_event(out, Event::StartList);
            match emit_items(&field.children[0], items, offsets[row], offsets[row + 1], out) {
                Ok(()) => {},
                Err(e) => {
                    proof {
                        let k = choose|k: int|
                            0 <= k < part.len() && !printable(
                                field.children[0].shape(),
                                #[trigger] part[k],
                            );
                        assert(!printable(field.children[0].shape(), part[k]));
                        lemma_printable(
                            field.children[0].shape(),
                            Shape::Null,
                            Seq::empty(),
                            part,
                            Seq::empty(),
                        );
                    }
                    return Err(e);
                },
            }
            push_event(out, Event::EndList);
            proof {
                lemma_printable(
                    field.children[0].shape(),
                    Shape::Null,
                    Seq::empty(),
                    part,
                    Seq::empty(),
                );
                let inner = items_events(field.children[0].shape(), part);
                assert(views(out@) =~= before + (seq![EventView::Start(Container::List)] + inner
                    + seq![EventView::End(Container::List)]));
            }
            Ok(())
        },
        _ => Ok(()),
    }
}

/// Emits row `row` of a column of structs or tuples.
fn emit_struct(field: &GenericField, array: &Array, row: usize, out: &mut Vec<Event>) -> (r:
    Result<()>)
    requires
        array is Struct,
        field.supported(),
        array.wf(),
        array.fits(field.shape()),
        row < array.rows().len(),
    ensures
        emitted(field.shape(), array.rows()[row as int], old(out)@, r, final(out)@),
    decreases array, 0nat, 1nat,
{
    let ghost before = views(out@);
    match array {
        Array::Struct { validity, columns } => {
            if !validity[row] {
                emit_null(out);
                return Ok(());
            }
            let keyed = !matches!(field.strategy, Some(Strategy::TupleAsStruct));
            let ghost cells = Seq::new(
                columns.len() as nat,
                |j: int| columns[j].rows()[row as int],
            );
            proof {
                lemma_columns(columns@);
                lemma_columns_fit(columns@, field.named_children());
                assert forall|j: int| 0 <= j < columns.len() implies {
                    &&& (#[trigger] columns[j]).wf()
                    &&& columns[j].fits(field.children[j].shape())
                    &&& field.children[j].supported()
                    &&& row < columns[j].rows().len()
                } by {
                    assert(Array::column_rows(columns@)[j] == columns[j].rows());
                    assert(field.named_children()[j].shape == field.children[j].shape());
                }
                assert(array.rows()[row as int] == Value::Record(cells)) by {
                    assert(array.rows()[row as int]->Record_0 =~= cells);
                }
            }
            let ghost open = EventView::Start(Shape::record_container(keyed));
            let ghost close = EventView::End(Shape::record_container(keyed));
            push_event(out, if keyed {
                Event::StartStruct
            } else {
                Event::StartTuple
            });
            proof {
                lemma_named_children(field);
            }
            match emit_fields(&field.children, keyed, columns, row, out) {
                Ok(()) => {},
                Err(e) => {
                    proof {
                        let j = choose|j: int|
                            0 <= j < cells.len() && !printable(
                                field.named_children()[j].shape,
                                #[trigger] cells[j],
                            );
                        assert(!printable(field.named_children()[j].shape, cells[j]));
                        lemma_printable(
                            Shape::Null,
                            Shape::Null,
                            field.named_children(),
                            cells,
                            Seq::empty(),
                        );
                    }
                    return Err(e);
                },
            }
            push_event(out, if keyed {
                Event::EndStruct
            } else {
                Event::EndTuple
            });
            proof {
                lemma_printable(
                    Shape::Null,
                    Shape::Null,
                    field.named_children(),
                    cells,
                    Seq::empty(),
                );
                let inner = fields_events(keyed, field.named_children(), cells);
                assert(views(out@) =~= before + (seq![open] + inner + seq![close]));
            }
            Ok(())
        },
        _ => Ok(()),
    }
}

/// Emits row `row` of a column of maps.
fn emit_map(field: &GenericField, array: &Array, row: usize, out: &mut Vec<Event>) -> (r: Result<
    (),
>)
    requires
        array is Mapping,
        field.supported(),
        array.wf(),
        array.fits(field.shape()),
        row < array.rows().len(),
    ensures
        emitted(field.shape(), array.rows()[row as int], old(out)@, r, final(out)@),
    decreases array, 0nat, 1nat,
{
    let ghost before = views(out@);
    match array {
        Array::Mapping { validity, offsets, keys, entries: vals } => {
            if !validity[row] {
                emit_null(out);
                return Ok(());
            }
            assert(offsets[row as int] <= offsets[row + 1] <= offsets@.last());
            let ghost part = entries(
                keys.rows(),
                vals.rows(),
                offsets[row as int] as int,
                offsets[row + 1] as int,
            );
            assert(array.rows()[row as int] == Value::Mapping(part));
            push_event(out, Event::StartMap);
            match emit_entries(
                &field.children[0],
                &field.children[1],
                array,
                keys,
                vals,
                offsets[row],
                offsets[row + 1],
                out,
            ) {
                Ok(()) => {},
                Err(e) => {
                    proof {
                        let k = choose|k: int|
                            0 <= k < part.len() && !(printable(
                                field.children[0].shape(),
                                (#[trigger] part[k]).0,
                            ) && printable(field.children[1].shape(), part[k].1));
                        assert(!(printable(field.children[0].shape(), part[k].0) && printable(
                            field.children[1].shape(),
                            part[k].1,
                        )));
                        lemma_printable(
                            field.children[0].shape(),
                            field.children[1].shape(),
                            Seq::empty(),
                            Seq::empty(),
                            part,
                        );
                    }
                    return Err(e);
                },
            }
            push_event(out, Event::EndMap);
            proof {
                lemma_printable(
                    field.children[0].shape(),
                    field.children[1].shape(),
                    Seq::empty(),
                    Seq::empty(),
                    part,
                );
                let inner = entries_events(
                    field.children[0].shape(),
                    field.children[1].shape(),
                    part,
                );
                assert(views(out@) =~= before + (seq![EventView::Start(Container::Mapping)]
                    + inner + seq![EventView::End(Container::Mapping)]));
            }
            Ok(())
        },
        _ => Ok(()),
    }
}

/// Emits row `row` of a column of tagged unions.
fn emit_union(field: &GenericField, array: &Array, row: usize, out: &mut Vec<Event>) -> (r:
    Result<()>)
    requires
        array is Union,
        field.supported(),
        array.wf(),
        array.fits(field.shape()),
        row < array.rows().len(),
    ensures
        emitted(field.shape(), array.rows()[row as int], old(out)@, r, final(out)@),
    decreases array, 0nat, 1nat,
{
    let ghost before = views(out@);
    match array {
        Array::Union { types, slots, columns } => {
            let variant = types[row];
            let slot = slots[row];
            proof {
                lemma_columns(columns@);
                lemma_columns_fit(columns@, field.named_children());
                assert(Array::column_rows(columns@)[variant as int]
                    == columns[variant as int].rows());
                assert(field.named_children()[variant as int].shape
                    == field.children[variant as int].shape());
                assert(columns[variant as int].wf());
                assert(field.children[variant as int].supported());
                assert(array.rows()[row as int] == Value::Variant(
                    variant as int,
                    Box::new(columns[variant as int].rows()[slot as int]),
                ));
            }
            let ghost e = EventView::Variant(
                field.children[variant as int].name@,
                variant as int,
            );
            push_event(out, Event::Variant(field.children[variant].name.clone(), variant));
            match emit_row(&field.children[variant], &columns[variant], slot, out) {
                Ok(()) => {},
                Err(e) => {
                    return Err(e);
                },
            }
            proof {
                let inner = events_of(
                    field.children[variant as int].shape(),
                    columns[variant as int].rows()[slot as int],
                );
                assert(before.push(e) + inner =~= before + (seq![e] + inner));
            }
            Ok(())
        },
        _ => Ok(()),
    }
}

/// Emits the events of row `row` of the column.
///
/// An absent row is `Null`, whatever the buffers hold in its place. A list
/// or a map is its boundaries around its items or entries, a struct or a
/// tuple its boundaries around its fields, a union its discriminant and
/// its value, a dictionary key the string it names, and a date/time that
/// is read as text its text.
pub fn emit_row(field: &GenericField, array: &Array, row: usize, out: &mut Vec<Event>) -> (r:
    Result<()>)
    requires
        field.supported(),
        array.wf(),
        array.fits(field.shape()),
        row < array.rows().len(),
    ensures
        emitted(field.shape(), array.rows()[row as int], old(out)@, r, final(out)@),
    decreases array, 1nat, 0nat,
{
    match array {
        Array::Primitive { validity, values } => emit_primitive(field, validity, values, row, out),
        Array::Dictionary { .. } => emit_dictionary(field, array, row, out),
        Array::List { .. } => emit_list(field, array, row, out),
        Array::Struct { .. } => emit_struct(field, array, row, out),
        Array::Mapping { .. } => emit_map(field, array, row, out),
        Array::Union { .. } => emit_union(field, array, row, out),
    }
}

/// The events of a column: the events of its rows between the boundaries
/// of a sequence.
pub open spec fn sequence_events(shape: Shape, rows: Seq<Value>) -> Seq<EventView> {
    seq![EventView::Start(Container::List)] + rows_events(shape, rows) + seq![
        EventView::End(Container::List),
    ]
}

/// Replays a column as the events of its rows, one row after another.
///
/// Fails as [`deserialize_from_array`] does.
pub fn replay(field: &GenericField, array: &Array) -> (r: Result<Vec<Event>>)
    ensures
        match r {
            Ok(events) => readable(field, array) && items_printable(field.shape(), array.rows())
                && views(events@) == rows_events(field.shape(), array.rows()),
            Err(e) => if !field.supported() {
                e == Error::UnsupportedType
            } else if !readable(field, array) {
                e == Error::TypeMismatch
            } else {
                e == Error::EncodingError && !items_printable(field.shape(), array.rows())
            },
        },
{
    let n = match extract_buffers(field, array) {
        Ok(n) => n,
        Err(e) => {
            return Err(e);
        }};
    let mut out: Vec<Event> = Vec::new();
    proof {
        assert(array.rows().subrange(0, n as int) =~= array.rows());
        lemma_printable(field.shape(), Shape::Null, Seq::empty(), array.rows(), Seq::empty());
        assert(views(out@) =~= Seq::<EventView>::empty());
    }
    match emit_items(field, array, 0, n, &mut out) {
        Ok(()) => {},
        Err(e) => {
            return Err(e);
        },
    }
    proof {
        assert(views(out@) =~= rows_events(field.shape(), array.rows()));
    }
    Ok(out)
}

/// What the replay of one column returns: the events of its rows between
/// the boundaries of a sequence, or the failure.
pub open spec fn array_read(field: &GenericField, array: &Array, outcome: Result<Vec<Event>>) -> bool {
    match outcome {
        Ok(events) => readable(field, array) && items_printable(field.shape(), array.rows())
            && views(events@) == sequence_events(field.shape(), array.rows()),
        Err(e) => if !field.supported() {
            e == Error::UnsupportedType
        } else if !readable(field, array) {
            e == Error::TypeMismatch
        } else {
            e == Error::EncodingError && !items_printable(field.shape(), array.rows())
        },
    }
}

/// Replays a column as the events of a sequence of values.
///
/// Fails with `UnsupportedType` where the field has no builder, with
/// `TypeMismatch` where the column's buffers are inconsistent or are not
/// those of the field's type, and with `EncodingError` where a date/time
/// that is read as text has no text.
pub fn deserialize_from_array(field: &GenericField, array: &Array) -> (r: Result<Vec<Event>>)
    ensures
        array_read(field, array, r),
{
    let n = match extract_buffers(field, array) {
        Ok(n) => n,
        Err(e) => {
            return Err(e);
        }};
    let mut out: Vec<Event> = Vec::new();
    push_event(&mut out, Event::StartList);
    let ghost opened = views(out@);
    proof {
        assert(array.rows().subrange(0, n as int) =~= array.rows());
        lemma_printable(field.shape(), Shape::Null, Seq::empty(), array.rows(), Seq::empty());
    }
    match emit_items(field, array, 0, n, &mut out) {
        Ok(()) => {},
        Err(e) => {
            return Err(e);
        },
    }
    push_event(&mut out, Event::EndList);
    proof {
        assert(opened =~= seq![EventView::Start(Container::List)]);
        assert(views(out@) =~= sequence_events(field.shape(), array.rows()));
    }
    Ok(out)
}

/// The number of rows of the shortest column, and none where there is no
/// column.
pub open spec fn shortest(columns: Seq<Array>) -> nat
    decreases columns.len(),
{
    if columns.len() == 0 {
        0
    } else if columns.len() == 1 {
        columns[0].rows().len()
    } else {
        let rest = shortest(columns.drop_last());
        if columns.last().rows().len() < rest {
            columns.last().rows().len()
        } else {
            rest
        }
    }
}

/// The first `count` records of the columns: record `i` holds row `i` of
/// every column.
pub open spec fn records(columns: Seq<Array>, count: nat) -> Seq<Value> {
    Seq::new(
        count,
        |i: int| Value::Record(Seq::new(columns.len(), |j: int| columns[j].rows()[i])),
    )
}

/// No column is shorter than the shortest.
pub proof fn lemma_shortest(columns: Seq<Array>, j: int)
    requires
        0 <= j < columns.len(),
    ensures
        shortest(columns) <= columns[j].rows().len(),
    decreases columns.len(),
{
    if columns.len() > 1 {
        if j < columns.len() - 1 {
            lemma_shortest(columns.drop_last(), j);
        }
    }
}

/// The number of rows of the shortest column.
fn shortest_len(columns: &Vec<Array>) -> (n: usize)
    ensures
        n == shortest(columns@),
{
    if columns.len() == 0 {
        return 0;
    }
    let mut n = columns[0].len();
    let mut k: usize = 1;
    assert(columns@.take(1) =~= seq![columns[0]]);
    while k < columns.len()
        invariant
            1 <= k <= columns.len(),
            n == shortest(columns@.take(k as int)),
        decreases columns.len() - k,
    {
        assert(columns@.take(k + 1).drop_last() =~= columns@.take(k as int));
        let len = columns[k].len();
        if len < n {
            n = len;
        }
        k = k + 1;
    }
    assert(columns@.take(columns.len() as int) =~= columns@);
    n
}

/// Whether every column can be read as a column of the field at its
/// place.
pub open spec fn all_readable(fields: Seq<GenericField>, columns: Seq<Array>) -> bool {
    &&& fields.len() == columns.len()
    &&& forall|j: int| 0 <= j < fields.len() ==> readable(#[trigger] &fields[j], &columns[j])
}

/// Whether every field has a builder.
pub open spec fn all_supported(fields: Seq<GenericField>) -> bool {
    forall|j: int| 0 <= j < fields.len() ==> (#[trigger] fields[j]).supported()
}

/// Checks the columns against the fields.
fn extract_all(fields: &Vec<GenericField>, arrays: &Vec<Array>) -> (r: Result<()>)
    ensures
        match r {
            Ok(()) => all_readable(fields@, arrays@),
            Err(e) => !all_readable(fields@, arrays@) && e == if fields.len() == arrays.len()
                && !all_supported(fields@) {
                Error::UnsupportedType
            } else {
                Error::TypeMismatch
            },
        },
{
    if fields.len() != arrays.len() {
        return Err(Error::TypeMismatch);
    }
    let mut k: usize = 0;
    while k < fields.len()
        invariant
            k <= fields.len(),
            fields.len() == arrays.len(),
            forall|j: int| 0 <= j < k ==> (#[trigger] fields[j]).supported(),
        decreases fields.len() - k,
    {
        if !fields[k].is_supported() {
            assert(!fields[k as int].supported());
            assert(!readable(&fields[k as int], &arrays[k as int]));
            return Err(Error::UnsupportedType);
        }
        k = k + 1;
    }
    let mut k: usize = 0;
    while k < fields.len()
        invariant
            k <= fields.len(),
            fields.len() == arrays.len(),
            all_supported(fields@),
            forall|j: int| 0 <= j < k ==> readable(#[trigger] &fields[j], &arrays[j]),
        decreases fields.len() - k,
    {
        if !conforming(&fields[k], &arrays[k]) {
            assert(!readable(&fields[k as int], &arrays[k as int]));
            return Err(Error::TypeMismatch);
        }
        k = k + 1;
    }
    Ok(())
}

/// What the replay of the columns of records returns: the events of the
/// records between the boundaries of a sequence, as many records as the
/// shortest column has rows; or the failure.
pub open spec fn arrays_read(
    fields: Seq<GenericField>,
    arrays: Seq<Array>,
    outcome: Result<Vec<Event>>,
) -> bool {
    let shape = record_shape(fields);
    let rows = records(arrays, shortest(arrays));
    match outcome {
        Ok(events) => all_readable(fields, arrays) && items_printable(shape, rows) && views(
            events@,
        ) == sequence_events(shape, rows),
        Err(e) => if fields.len() != arrays.len() {
            e == Error::TypeMismatch
        } else if !all_supported(fields) {
            e == Error::UnsupportedType
        } else if !all_readable(fields, arrays) {
            e == Error::TypeMismatch
        } else {
            e == Error::EncodingError && !items_printable(shape, rows)
        },
    }
}

/// Replays the columns as the events of a sequence of records.
///
/// The columns need not agree in length: the records are as many as the
/// shortest column has rows, and the rows beyond them are left out.
///
/// Fails with `TypeMismatch` where there is not one column per field, with
/// `UnsupportedType` where a field has no builder, with `TypeMismatch`
/// where a column's buffers are inconsistent or are not those of its
/// field's type, and with `EncodingError` where a date/time that is read
/// as text has no text.
pub fn deserialize_from_arrays(fields: &Vec<GenericField>, arrays: &Vec<Array>) -> (r: Result<
    Vec<Event>,
>)
    ensures
        arrays_read(fields@, arrays@, r),
{
    match extract_all(fields, arrays) {
        Ok(()) => {},
        Err(e) => {
            return Err(e);
        },
    }
    let n = shortest_len(arrays);
    let ghost shape = record_shape(fields@);
    let ghost rows = records(arrays@, n as nat);
    let mut out: Vec<Event> = Vec::new();
    push_event(&mut out, Event::StartList);
    let ghost opened = views(out@);
    let mut i: usize = 0;
    proof {
        assert(opened =~= seq![EventView::Start(Container::List)]);
        assert(rows.take(0) =~= Seq::<Value>::empty());
        assert(opened + Seq::<EventView>::empty() =~= opened);
        lemma_printable(shape, Shape::Null, Seq::empty(), rows, Seq::empty());
    }
    while i < n
        invariant
            i <= n,
            n == shortest(arrays@),
            shape == record_shape(fields@),
            rows == records(arrays@, n as nat),
            all_readable(fields@, arrays@),
            views(out@) == opened + items_events(shape, rows.take(i as int)),
            forall|k: int| 0 <= k < i ==> printable(shape, #[trigger] rows[k]),
            items_printable(shape, rows) <==> forall|k: int|
                0 <= k < rows.len() ==> printable(shape, #[trigger] rows[k]),
        decreases n - i,
    {
        let ghost mid = views(out@);
        let ghost cells = Seq::new(arrays.len() as nat, |j: int| arrays[j].rows()[i as int]);
        proof {
            assert(rows.take(i + 1).drop_last() =~= rows.take(i as int));
            assert(rows.take(i + 1).last() == rows[i as int]);
            assert(rows[i as int] == Value::Record(cells));
            assert forall|j: int| 0 <= j < arrays.len() implies {
                &&& (#[trigger] arrays[j]).wf()
                &&& arrays[j].fits(fields[j].shape())
                &&& fields[j].supported()
                &&& i < arrays[j].rows().len()
            } by {
                assert(readable(&fields[j], &arrays[j]));
                lemma_shortest(arrays@, j);
            }
            lemma_printable(Shape::Null, Shape::Null, named_fields(fields@), cells, Seq::empty());
        }
        push_event(&mut out, Event::StartStruct);
        match emit_fields(fields, true, arrays, i, &mut out) {
            Ok(()) => {},
            Err(e) => {
                proof {
                    let j = choose|j: int|
                        0 <= j < cells.len() && !printable(
                            named_fields(fields@)[j].shape,
                            #[trigger] cells[j],
                        );
                    assert(!printable(named_fields(fields@)[j].shape, cells[j]));
                    assert(!printable(shape, rows[i as int]));
                }
                return Err(e);
            },
        }
        push_event(&mut out, Event::EndStruct);
        proof {
            let inner = fields_events(true, named_fields(fields@), cells);
            let record = seq![EventView::Start(Container::Struct)] + inner + seq![
                EventView::End(Container::Struct),
            ];
            assert(record == events_of(shape, rows[i as int]));
            assert(views(out@) =~= mid + record);
            assert(views(out@) =~= opened + items_events(shape, rows.take(i + 1)));
        }
        i = i + 1;
    }
    push_event(&mut out, Event::EndList);
    proof {
        assert(rows.take(n as int) =~= rows);
        assert(views(out@) =~= sequence_events(shape, rows));
    }
    Ok(out)
}

/// A producer of events: the next event, or the end of the stream.
pub trait EventSource: Sized {
    /// The source can be asked for its next event.
    spec fn wf(&self) -> bool;

    /// The events that are still to come.
    spec fn remaining(&self) -> Seq<EventView>;

    /// The failure that the next call reports, if it reports one.
    spec fn stalled(&self) -> Option<Error>;

    /// The next event, or `None` at the end of the stream.
    ///
    /// After a failure the source is to be discarded.
    fn next(&mut self) -> (r: Result<Option<Event>>)
        requires
            old(self).wf(),
        ensures
            match old(self).stalled() {
                Some(e) => r == Err::<Option<Event>, Error>(e),
                None => final(self).wf() && match r {
                    Ok(Some(event)) => old(self).remaining().len() > 0 && event@ == old(
                        self,
                    ).remaining()[0] && final(self).remaining() == old(
                        self,
                    ).remaining().drop_first(),
                    Ok(None) => old(self).remaining().len() == 0 && final(self).remaining()
                        == old(self).remaining(),
                    Err(_) => false,
                },
            },
    ;
}

/// The events of a column, handed out one by one.
#[derive(Debug)]
pub struct ArraySource {
    events: Vec<Event>,
    position: usize,
}

impl ArraySource {
    /// A source of the events of the rows of the column.
    ///
    /// Fails as [`deserialize_from_array`] does.
    pub fn new(field: &GenericField, array: &Array) -> (r: Result<ArraySource>)
        ensures
            match r {
                Ok(source) => readable(field, array) && source.wf() && source.stalled() is None
                    && source.remaining() == rows_events(field.shape(), array.rows()),
                Err(e) => if !field.supported() {
                    e == Error::UnsupportedType
                } else if !readable(field, array) {
                    e == Error::TypeMismatch
                } else {
                    e == Error::EncodingError && !items_printable(field.shape(), array.rows())
                },
            },
    {
        match replay(field, array) {
            Ok(events) => {
                let source = ArraySource { events, position: 0 };
                assert(views(source.events@).skip(0) =~= views(source.events@));
                Ok(source)
            },
            Err(e) => Err(e),
        }
    }
}

impl EventSource for ArraySource {
    closed spec fn wf(&self) -> bool {
        self.position <= self.events.len()
    }

    closed spec fn remaining(&self) -> Seq<EventView> {
        views(self.events@).skip(self.position as int)
    }

    open spec fn stalled(&self) -> Option<Error> {
        None
    }

    fn next(&mut self) -> (r: Result<Option<Event>>) {
        if self.position < self.events.len() {
            let event = self.events[self.position].duplicate();
            self.position = self.position + 1;
            assert(views(self.events@).skip(self.position as int) =~= views(self.events@).skip(
                self.position - 1,
            ).drop_first());
            Ok(Some(event))
        } else {
            Ok(None)
        }
    }
}

/// What a date/time source makes of an event: the text of a 64-bit
/// integer, and every other event as it is.
pub open spec fn date_text(form: DateTimeForm, event: EventView) -> EventView {
    match event {
        EventView::Int(IntType::I64, v) => match form.text_of(v as i64) {
            Some(text) => EventView::Str(text),
            None => event,
        },
        _ => event,
    }
}

/// Whether a date/time source has no text for the event.
pub open spec fn date_text_missing(form: DateTimeForm, event: EventView) -> bool {
    event matches EventView::Int(IntType::I64, v) && form.text_of(v as i64) is None
}

/// The events, each as a date/time source hands it out.
pub open spec fn date_texts(form: DateTimeForm, events: Seq<EventView>) -> Seq<EventView> {
    Seq::new(events.len(), |i: int| date_text(form, events[i]))
}

/// The failure of a date/time source over a source that has the given
/// events to come and the given failure.
pub open spec fn date_stalled(
    form: DateTimeForm,
    inner: Option<Error>,
    events: Seq<EventView>,
) -> Option<Error> {
    match inner {
        Some(e) => Some(e),
        None => if events.len() > 0 && date_text_missing(form, events[0]) {
            Some(Error::EncodingError)
        } else {
            None
        },
    }
}

/// Hands the event on, a 64-bit integer as the text of the date and time
/// that it stands for.
fn print_event(form: DateTimeForm, event: Option<Event>) -> (r: Result<Option<Event>>)
    ensures
        match event {
            Some(e) => if date_text_missing(form, e@) {
                r == Err::<Option<Event>, Error>(Error::EncodingError)
            } else {
                r matches Ok(Some(out)) && out@ == date_text(form, e@)
            },
            None => r matches Ok(None),
        },
{
    match event {
        Some(Event::I64(millis)) => match form.print(millis) {
            Ok(text) => Ok(Some(Event::Str(text))),
            Err(e) => Err(e),
        },
        Some(e) => Ok(Some(e)),
        None => Ok(None),
    }
}

/// Hands out the 64-bit integers of the source it wraps as the text of
/// dates and times without a zone.
#[derive(Debug)]
pub struct NaiveDateTimeStrSource<S>(pub S);

/// Hands out the 64-bit integers of the source it wraps as the text of
/// dates and times in UTC.
#[derive(Debug)]
pub struct DateTimeStrSource<S>(pub S);

impl<S: EventSource> EventSource for NaiveDateTimeStrSource<S> {
    open spec fn wf(&self) -> bool {
        self.0.wf()
    }

    open spec fn remaining(&self) -> Seq<EventView> {
        date_texts(DateTimeForm::Naive, self.0.remaining())
    }

    open spec fn stalled(&self) -> Option<Error> {
        date_stalled(DateTimeForm::Naive, self.0.stalled(), self.0.remaining())
    }

    fn next(&mut self) -> (r: Result<Option<Event>>) {
        let event = match self.0.next() {
            Ok(event) => event,
            Err(e) => {
                return Err(e);
            }};
        proof {
            let rest = old(self).0.remaining();
            if rest.len() > 0 {
                assert(date_texts(DateTimeForm::Naive, rest.drop_first()) =~= date_texts(
                    DateTimeForm::Naive,
                    rest,
                ).drop_first());
            }
        }
        print_event(DateTimeForm::Naive, event)
    }
}

impl<S: EventSource> EventSource for DateTimeStrSource<S> {
    open spec fn wf(&self) -> bool {
        self.0.wf()
    }

    open spec fn remaining(&self) -> Seq<EventView> {
        date_texts(DateTimeForm::Utc, self.0.remaining())
    }

    open spec fn stalled(&self) -> Option<Error> {
        date_stalled(DateTimeForm::Utc, self.0.stalled(), self.0.remaining())
    }

    fn next(&mut self) -> (r: Result<Option<Event>>) {
        let event = match self.0.next() {
            Ok(event) => event,
            Err(e) => {
                return Err(e);
            }};
        proof {
            let rest = old(self).0.remaining();
            if rest.len() > 0 {
                assert(date_texts(DateTimeForm::Utc, rest.drop_first()) =~= date_texts(
                    DateTimeForm::Utc,
                    rest,
                ).drop_first());
            }
        }
        print_event(DateTimeForm::Utc, event)
    }
}

} // verus!
