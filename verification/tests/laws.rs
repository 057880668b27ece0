use serde_arrow::array::{Array, Values};
use serde_arrow::arrays::{
    deserialize_from_array, deserialize_from_arrays, serialize_into_array, serialize_into_arrays,
    ArraysBuilder,
};
use serde_arrow::builder::dynamic::{finish_all, DynamicArrayBuilder};
use serde_arrow::builder::factory::{build_array_builder, build_struct_array_builder};
use serde_arrow::error::Error;
use serde_arrow::event::Event;
use serde_arrow::schema::{GenericDataType, GenericField};

fn sequence(items: Vec<Event>) -> Vec<Event> {
    let mut events = vec![Event::StartList];
    events.extend(items);
    events.push(Event::EndList);
    events
}

fn text(value: &str) -> Event {
    Event::Str(String::from(value))
}

fn record(a: Event, b: Event) -> Vec<Event> {
    vec![Event::StartStruct, text("a"), a, text("b"), b, Event::EndStruct]
}

fn fields() -> Vec<GenericField> {
    vec![
        GenericField::new("a", GenericDataType::I64, true),
        GenericField::new("b", GenericDataType::LargeUtf8, false),
    ]
}

#[test]
fn records_round_trip() {
    let mut items = Vec::new();
    items.extend(record(Event::I64(1), text("x")));
    items.extend(record(Event::Null, text("y")));
    items.extend(record(Event::I64(-3), text("")));
    let events = sequence(items);
    let arrays = serialize_into_arrays(&fields(), &events).unwrap();
    assert_eq!(arrays.len(), 2);
    assert_eq!(deserialize_from_arrays(&fields(), &arrays).unwrap(), events);
}

#[test]
fn read_then_write_gives_the_columns_back() {
    let arrays = vec![
        Array::Primitive {
            validity: vec![true, false],
            values: Values::Int(serde_arrow::event::IntType::I64, vec![5, 0]),
        },
        Array::Primitive {
            validity: vec![true, true],
            values: Values::Utf8(vec![String::from("p"), String::from("q")]),
        },
    ];
    let events = deserialize_from_arrays(&fields(), &arrays).unwrap();
    assert_eq!(serialize_into_arrays(&fields(), &events).unwrap(), arrays);
}

#[test]
fn absent_value_is_unset_validity_whatever_its_neighbours() {
    let field = GenericField::new("item", GenericDataType::Bool, true);
    for before in [Event::Bool(true), Event::Bool(false), Event::Null] {
        for after in [Event::Bool(true), Event::Bool(false), Event::Null] {
            let events = sequence(vec![before.clone(), Event::Null, after.clone()]);
            let array = serialize_into_array(&field, &events).unwrap();
            match &array {
                Array::Primitive { validity, .. } => assert!(!validity[1]),
                other => panic!("unexpected array {other:?}"),
            }
            assert_eq!(deserialize_from_array(&field, &array).unwrap()[2], Event::Null);
        }
    }
}

#[test]
fn placeholder_of_an_absent_row_is_ignored_on_read() {
    let field = GenericField::new("item", GenericDataType::Bool, true);
    for placeholder in [true, false] {
        let array = Array::Primitive {
            validity: vec![true, false, true],
            values: Values::Bool(vec![true, placeholder, false]),
        };
        assert_eq!(
            deserialize_from_array(&field, &array).unwrap(),
            sequence(vec![Event::Bool(true), Event::Null, Event::Bool(false)])
        );
    }
}

#[test]
fn bool_scenario() {
    let field = GenericField::new("item", GenericDataType::Bool, false);
    let array = serialize_into_array(&field, &sequence(vec![Event::Bool(true), Event::Bool(false)])).unwrap();
    assert_eq!(
        array,
        Array::Primitive { validity: vec![true, true], values: Values::Bool(vec![true, false]) }
    );
    let field = GenericField::new("item", GenericDataType::Bool, true);
    let array = serialize_into_array(
        &field,
        &sequence(vec![Event::Bool(true), Event::Null, Event::Bool(false)]),
    )
    .unwrap();
    match array {
        Array::Primitive { validity, values: Values::Bool(values) } => {
            assert_eq!(validity, vec![true, false, true]);
            assert_eq!(values.len(), 3);
            assert!(values[0]);
            assert!(!values[2]);
        }
        other => panic!("unexpected array {other:?}"),
    }
}

#[test]
fn unmatched_end_is_a_protocol_violation_and_leaves_the_builder_usable() {
    let mut builder = build_struct_array_builder(&fields()).unwrap();
    for event in record(Event::I64(1), text("x")) {
        builder.accept(&event).unwrap();
    }
    for end in [Event::EndStruct, Event::EndList, Event::EndTuple, Event::EndMap] {
        assert_eq!(builder.accept(&end), Err(Error::ProtocolViolation));
    }
    for event in record(Event::I64(2), text("y")) {
        builder.accept(&event).unwrap();
    }
    match builder.build_array() {
        Array::Struct { validity, columns } => {
            assert_eq!(validity, vec![true, true]);
            assert_eq!(
                columns[0],
                Array::Primitive {
                    validity: vec![true, true],
                    values: Values::Int(serde_arrow::event::IntType::I64, vec![1, 2]),
                }
            );
        }
        other => panic!("unexpected array {other:?}"),
    }
}

#[test]
fn refused_event_inside_a_record_leaves_the_record_open() {
    let mut builder = build_struct_array_builder(&fields()).unwrap();
    builder.accept(&Event::StartStruct).unwrap();
    builder.accept(&text("a")).unwrap();
    assert_eq!(builder.accept(&text("not a number")), Err(Error::TypeMismatch));
    assert_eq!(builder.accept(&Event::EndStruct), Err(Error::ProtocolViolation));
    builder.accept(&Event::I64(4)).unwrap();
    builder.accept(&text("b")).unwrap();
    builder.accept(&text("z")).unwrap();
    builder.accept(&Event::EndStruct).unwrap();
    assert!(builder.idle());
    assert_eq!(builder.len(), 1);
}

#[test]
fn unmatched_end_at_the_start_of_any_column() {
    let columns = vec![
        GenericField::new("item", GenericDataType::Null, true),
        GenericField::new("item", GenericDataType::U8, false),
        GenericField::new("item", GenericDataType::Utf8, false),
        GenericField::new("item", GenericDataType::Date64, false),
        GenericField::new("item", GenericDataType::Struct, false),
        GenericField::new("item", GenericDataType::List, false)
            .with_child(GenericField::new("element", GenericDataType::U8, false)),
    ];
    for field in columns {
        let mut builder = build_array_builder(&field).unwrap();
        assert_eq!(builder.accept(&Event::EndStruct), Err(Error::ProtocolViolation));
        assert!(builder.idle());
        assert_eq!(builder.len(), 0);
    }
}

#[test]
fn builder_is_empty_after_build_arrays() {
    let mut builder = ArraysBuilder::new(fields()).unwrap();
    builder.push(&record(Event::I64(1), text("x"))).unwrap();
    let mut more = Vec::new();
    more.extend(record(Event::I64(2), text("y")));
    more.extend(record(Event::Null, text("z")));
    builder.extend(&sequence(more)).unwrap();
    let first = builder.build_arrays().unwrap();
    assert_eq!(first[0].len(), 3);
    assert_eq!(first[1].len(), 3);
    let empty = builder.build_arrays().unwrap();
    assert_eq!(empty[0].len(), 0);
    builder.push(&record(Event::I64(9), text("w"))).unwrap();
    let second = builder.build_arrays().unwrap();
    assert_eq!(
        second[0],
        Array::Primitive {
            validity: vec![true],
            values: Values::Int(serde_arrow::event::IntType::I64, vec![9]),
        }
    );
}

#[test]
fn build_arrays_inside_a_record_fails_and_changes_nothing() {
    let mut builder = ArraysBuilder::new(fields()).unwrap();
    builder.push(&vec![Event::StartStruct, text("a"), Event::I64(1)]).unwrap();
    assert_eq!(builder.build_arrays(), Err(Error::ProtocolViolation));
    builder.push(&vec![text("b"), text("x"), Event::EndStruct]).unwrap();
    let arrays = builder.build_arrays().unwrap();
    assert_eq!(arrays[0].len(), 1);
}

#[test]
fn mismatched_lengths_give_the_shortest() {
    let arrays = vec![
        Array::Primitive {
            validity: vec![true, true, true],
            values: Values::Int(serde_arrow::event::IntType::I64, vec![1, 2, 3]),
        },
        Array::Primitive {
            validity: vec![true, true],
            values: Values::Utf8(vec![String::from("p"), String::from("q")]),
        },
    ];
    let mut items = Vec::new();
    items.extend(record(Event::I64(1), text("p")));
    items.extend(record(Event::I64(2), text("q")));
    assert_eq!(deserialize_from_arrays(&fields(), &arrays).unwrap(), sequence(items));
}

#[test]
fn sequence_without_boundaries_is_refused() {
    let field = GenericField::new("item", GenericDataType::U8, false);
    assert_eq!(serialize_into_array(&field, &vec![]), Err(Error::ProtocolViolation));
    assert_eq!(serialize_into_array(&field, &vec![Event::U8(1)]), Err(Error::ProtocolViolation));
    assert_eq!(
        serialize_into_array(&field, &vec![Event::StartList, Event::U8(1)]),
        Err(Error::ProtocolViolation)
    );
    assert_eq!(
        serialize_into_array(&field, &vec![Event::StartList, Event::EndList, Event::EndList]),
        Err(Error::ProtocolViolation)
    );
    assert_eq!(serialize_into_array(&field, &sequence(vec![])).unwrap().len(), 0);
}

#[test]
fn finish_marks_every_container_below() {
    let list = GenericField::new("items", GenericDataType::List, false)
        .with_child(GenericField::new("element", GenericDataType::U8, false));
    let pair = GenericField::new("pair", GenericDataType::Struct, false)
        .with_child(GenericField::new("left", GenericDataType::Bool, false))
        .with_child(list);
    let marked = |builder: &DynamicArrayBuilder| match builder {
        DynamicArrayBuilder::Struct(outer) => {
            outer.finished
                && match &outer.builders[1] {
                    DynamicArrayBuilder::List(inner) => inner.finished,
                    _ => false,
                }
        }
        _ => false,
    };
    let mut builders = vec![build_array_builder(&pair).unwrap(), build_array_builder(&pair).unwrap()];
    assert!(!marked(&builders[0]) && !marked(&builders[1]));
    finish_all(&mut builders);
    assert!(marked(&builders[0]) && marked(&builders[1]));
    assert_eq!(builders[0].len(), 0);

    let mut open = build_array_builder(&pair).unwrap();
    open.accept(&Event::StartStruct).unwrap();
    assert_eq!(open.finish(), Err(Error::ProtocolViolation));
    assert!(!marked(&open));
}
