use serde_arrow::arrays::{serialize_into_array, serialize_into_field, serialize_into_fields};
use serde_arrow::error::Error;
use serde_arrow::event::Event;
use serde_arrow::schema::{GenericDataType, GenericField, Strategy};
use serde_arrow::tracer::{decimal_text, widen, Node, NodeKind, Tracer, TracingOptions};

fn sequence(items: Vec<Event>) -> Vec<Event> {
    let mut events = vec![Event::StartList];
    events.extend(items);
    events.push(Event::EndList);
    events
}

fn text(value: &str) -> Event {
    Event::Str(String::from(value))
}

fn trace(items: Vec<Event>, options: TracingOptions) -> Result<GenericField, Error> {
    serialize_into_field(&sequence(items), "item", options)
}

#[test]
fn fields_of_records() {
    let items = vec![
        Event::StartStruct,
        text("a"),
        Event::F32(1.0f32.to_bits()),
        text("b"),
        Event::U64(2),
        Event::EndStruct,
        Event::StartStruct,
        text("a"),
        Event::Null,
        text("b"),
        Event::U64(3),
        Event::EndStruct,
    ];
    let fields = serialize_into_fields(&sequence(items), TracingOptions::new()).unwrap();
    assert_eq!(
        fields,
        vec![
            GenericField::new("a", GenericDataType::F32, true),
            GenericField::new("b", GenericDataType::U64, false),
        ]
    );
}

#[test]
fn no_records_is_a_schema_inference_failure() {
    assert_eq!(
        serialize_into_fields(&sequence(vec![]), TracingOptions::new()),
        Err(Error::SchemaInferenceFailure)
    );
    assert_eq!(
        serialize_into_fields(&sequence(vec![]), TracingOptions::new().allow_null_fields(true)),
        Err(Error::SchemaInferenceFailure)
    );
    assert_eq!(
        serialize_into_fields(&sequence(vec![Event::Null]), TracingOptions::new().allow_null_fields(true)),
        Err(Error::SchemaInferenceFailure)
    );
}

#[test]
fn items_that_are_no_records_have_no_fields() {
    assert_eq!(
        serialize_into_fields(&sequence(vec![Event::U8(1)]), TracingOptions::new()),
        Err(Error::SchemaInferenceFailure)
    );
}

#[test]
fn stream_that_is_no_sequence_is_a_protocol_violation() {
    for events in [
        vec![],
        vec![Event::U8(1)],
        vec![Event::StartList, Event::U8(1)],
        vec![Event::StartList, Event::EndList, Event::U8(1)],
        vec![Event::EndList],
        vec![Event::StartList, Event::StartStruct, Event::U8(1), Event::EndStruct, Event::EndList],
        vec![Event::StartList, Event::StartTuple, Event::EndList],
    ] {
        assert_eq!(
            serialize_into_field(&events, "item", TracingOptions::new()),
            Err(Error::ProtocolViolation)
        );
    }
}

#[test]
fn bytes_have_no_type() {
    assert_eq!(trace(vec![Event::Bytes(vec![1])], TracingOptions::new()), Err(Error::UnsupportedType));
}

#[test]
fn incompatible_types_fail() {
    assert_eq!(
        trace(vec![text("a"), Event::StartStruct, Event::EndStruct], TracingOptions::new()),
        Err(Error::SchemaInferenceFailure)
    );
    assert_eq!(
        trace(vec![Event::Bool(true), Event::U8(1)], TracingOptions::new().coerce_numbers(true)),
        Err(Error::SchemaInferenceFailure)
    );
    assert_eq!(
        trace(vec![Event::U8(1), Event::U16(1)], TracingOptions::new()),
        Err(Error::SchemaInferenceFailure)
    );
}

#[test]
fn numbers_widen_where_they_are_coerced() {
    let options = TracingOptions::new().coerce_numbers(true);
    let cases = [
        (Event::U8(1), Event::U32(1), GenericDataType::U32),
        (Event::I16(1), Event::I8(1), GenericDataType::I16),
        (Event::U8(1), Event::I8(1), GenericDataType::I16),
        (Event::U32(1), Event::I16(1), GenericDataType::I64),
        (Event::U16(1), Event::I64(1), GenericDataType::I64),
        (Event::F32(0), Event::F64(0), GenericDataType::F64),
        (Event::I8(1), Event::F32(0), GenericDataType::F64),
    ];
    for (a, b, expected) in cases {
        assert_eq!(
            trace(vec![a.clone(), b.clone()], options).unwrap(),
            GenericField::new("item", expected, false)
        );
        assert_eq!(
            trace(vec![b, a], options).unwrap(),
            GenericField::new("item", expected, false)
        );
    }
    assert_eq!(trace(vec![Event::U64(1), Event::I8(1)], options), Err(Error::SchemaInferenceFailure));
}

#[test]
fn widening_table() {
    assert_eq!(widen(GenericDataType::U8, GenericDataType::U8), Some(GenericDataType::U8));
    assert_eq!(widen(GenericDataType::U8, GenericDataType::U16), Some(GenericDataType::U16));
    assert_eq!(widen(GenericDataType::U16, GenericDataType::I8), Some(GenericDataType::I32));
    assert_eq!(widen(GenericDataType::I8, GenericDataType::U32), Some(GenericDataType::I64));
    assert_eq!(widen(GenericDataType::I64, GenericDataType::U64), None);
    assert_eq!(widen(GenericDataType::F32, GenericDataType::F64), Some(GenericDataType::F64));
    assert_eq!(widen(GenericDataType::U64, GenericDataType::F32), Some(GenericDataType::F64));
    assert_eq!(widen(GenericDataType::Bool, GenericDataType::Utf8), None);
    assert_eq!(widen(GenericDataType::Utf8, GenericDataType::LargeUtf8), None);
}

#[test]
fn list_items_merge_to_the_element() {
    let items = vec![
        Event::StartList,
        Event::EndList,
        Event::StartList,
        Event::Null,
        Event::I32(1),
        Event::EndList,
    ];
    assert_eq!(
        trace(items, TracingOptions::new()).unwrap(),
        GenericField::new("item", GenericDataType::LargeList, false)
            .with_child(GenericField::new("element", GenericDataType::I32, true))
    );
}

#[test]
fn list_without_items_has_no_element_type() {
    assert_eq!(
        trace(vec![Event::StartList, Event::EndList], TracingOptions::new()),
        Err(Error::SchemaInferenceFailure)
    );
    assert_eq!(
        trace(vec![Event::StartList, Event::EndList], TracingOptions::new().allow_null_fields(true)).unwrap(),
        GenericField::new("item", GenericDataType::LargeList, false)
            .with_child(GenericField::new("element", GenericDataType::Null, true))
    );
}

#[test]
fn tuples_are_structs_with_the_tuple_strategy() {
    let items = vec![Event::StartTuple, Event::I64(-1), text("a"), Event::EndTuple];
    assert_eq!(
        trace(items, TracingOptions::new()).unwrap(),
        GenericField::new("item", GenericDataType::Struct, false)
            .with_strategy(Strategy::TupleAsStruct)
            .with_child(GenericField::new("0", GenericDataType::I64, false))
            .with_child(GenericField::new("1", GenericDataType::LargeUtf8, false))
    );
}

#[test]
fn tuples_of_different_length_do_not_merge() {
    let items = vec![
        Event::StartTuple,
        Event::I64(-1),
        Event::EndTuple,
        Event::StartTuple,
        Event::I64(-1),
        Event::I64(2),
        Event::EndTuple,
    ];
    assert_eq!(trace(items, TracingOptions::new()), Err(Error::SchemaInferenceFailure));
}

#[test]
fn structs_with_other_fields_do_not_merge() {
    let items = vec![
        Event::StartStruct,
        text("a"),
        Event::I64(-1),
        Event::EndStruct,
        Event::StartStruct,
        text("b"),
        Event::I64(-1),
        Event::EndStruct,
    ];
    assert_eq!(trace(items, TracingOptions::new()), Err(Error::SchemaInferenceFailure));
}

#[test]
fn maps_merge_keys_and_values() {
    let items = vec![
        Event::StartMap,
        text("a"),
        Event::Null,
        text("b"),
        Event::Bool(true),
        Event::EndMap,
    ];
    assert_eq!(
        trace(items, TracingOptions::new()).unwrap(),
        GenericField::new("item", GenericDataType::Mapping, false)
            .with_child(GenericField::new("key", GenericDataType::LargeUtf8, false))
            .with_child(GenericField::new("value", GenericDataType::Bool, true))
    );
}

fn variant(name: &str, index: usize) -> Event {
    Event::Variant(String::from(name), index)
}

#[test]
fn unions_need_a_sample_of_every_variant() {
    let both = vec![variant("B", 1), text("x"), variant("A", 0), Event::U8(1)];
    assert_eq!(
        trace(both, TracingOptions::new()).unwrap(),
        GenericField::new("item", GenericDataType::Union, false)
            .with_child(GenericField::new("A", GenericDataType::U8, false))
            .with_child(GenericField::new("B", GenericDataType::LargeUtf8, false))
    );
    let only_second = vec![variant("B", 1), text("x")];
    assert_eq!(trace(only_second, TracingOptions::new()), Err(Error::SchemaInferenceFailure));
}

#[test]
fn union_variants_with_different_names_do_not_merge() {
    let items = vec![variant("A", 0), Event::U8(1), variant("B", 0), Event::U8(1)];
    assert_eq!(trace(items, TracingOptions::new()), Err(Error::SchemaInferenceFailure));
}

#[test]
fn traced_schema_builds_the_samples() {
    let items = vec![
        Event::StartStruct,
        text("id"),
        Event::U32(1),
        text("tags"),
        Event::StartList,
        text("a"),
        Event::EndList,
        text("pair"),
        Event::StartTuple,
        Event::Bool(true),
        Event::Null,
        Event::EndTuple,
        Event::EndStruct,
        Event::StartStruct,
        text("id"),
        Event::U32(2),
        text("tags"),
        Event::StartList,
        Event::EndList,
        text("pair"),
        Event::StartTuple,
        Event::Bool(false),
        Event::I8(3),
        Event::EndTuple,
        Event::EndStruct,
    ];
    let events = sequence(items);
    let field = serialize_into_field(&events, "item", TracingOptions::new()).unwrap();
    let array = serialize_into_array(&field, &events).unwrap();
    assert_eq!(serde_arrow::arrays::deserialize_from_array(&field, &array).unwrap(), events);
}

#[test]
fn tracer_merges_the_samples_of_several_sequences() {
    let mut tracer = Tracer::new(TracingOptions::new());
    assert_eq!(tracer.to_field("root"), Err(Error::SchemaInferenceFailure));
    tracer.trace_samples(&sequence(vec![Event::Null])).unwrap();
    tracer.trace_samples(&sequence(vec![Event::I16(1)])).unwrap();
    assert_eq!(tracer.to_field("x").unwrap(), GenericField::new("x", GenericDataType::I16, true));
    assert_eq!(tracer.trace_samples(&sequence(vec![text("a")])), Err(Error::SchemaInferenceFailure));
}

#[test]
fn default_tells_nothing() {
    assert_eq!(
        trace(vec![Event::Default, Event::U8(1)], TracingOptions::new()).unwrap(),
        GenericField::new("item", GenericDataType::U8, false)
    );
    assert!(Node::blank().is_blank());
    assert!(!Node::leaf(NodeKind::Unknown, true).is_blank());
}

#[test]
fn decimal_names() {
    assert_eq!(decimal_text(0), "0");
    assert_eq!(decimal_text(7), "7");
    assert_eq!(decimal_text(10), "10");
    assert_eq!(decimal_text(4096), "4096");
}

#[test]
fn structs_with_other_fields_merge_where_allowed() {
    let items = vec![
        Event::StartStruct,
        text("x"),
        Event::I64(-1),
        text("y"),
        Event::U8(1),
        Event::EndStruct,
        Event::StartStruct,
        text("y"),
        Event::U16(1),
        text("z"),
        Event::Bool(true),
        Event::EndStruct,
        Event::StartStruct,
        text("z"),
        Event::Null,
        text("w"),
        text("late"),
        text("x"),
        Event::I64(2),
        Event::EndStruct,
    ];
    let options = TracingOptions::new().merge_unknown_struct_fields(true).coerce_numbers(true);
    assert_eq!(
        trace(items.clone(), options).unwrap(),
        GenericField::new("item", GenericDataType::Struct, false)
            .with_child(GenericField::new("x", GenericDataType::I64, true))
            .with_child(GenericField::new("y", GenericDataType::U16, true))
            .with_child(GenericField::new("z", GenericDataType::Bool, true))
            .with_child(GenericField::new("w", GenericDataType::LargeUtf8, true))
    );
    assert_eq!(
        trace(items, TracingOptions::new().coerce_numbers(true)),
        Err(Error::SchemaInferenceFailure)
    );
}

#[test]
fn merged_structs_keep_shared_fields_as_they_are() {
    let items = vec![
        Event::StartStruct,
        text("a"),
        Event::U8(1),
        Event::EndStruct,
        Event::StartStruct,
        text("a"),
        Event::U8(2),
        Event::EndStruct,
    ];
    let options = TracingOptions::new().merge_unknown_struct_fields(true);
    assert_eq!(
        trace(items, options).unwrap(),
        GenericField::new("item", GenericDataType::Struct, false)
            .with_child(GenericField::new("a", GenericDataType::U8, false))
    );
    let clash = vec![
        Event::StartStruct,
        text("a"),
        Event::U8(1),
        Event::EndStruct,
        Event::StartStruct,
        text("a"),
        text("one"),
        Event::EndStruct,
    ];
    assert_eq!(trace(clash, options), Err(Error::SchemaInferenceFailure));
}

#[test]
fn options_are_set_one_by_one() {
    let options = TracingOptions::new();
    assert!(!options.allow_null_fields && !options.coerce_numbers && !options.merge_unknown_struct_fields);
    let options = options.allow_null_fields(true).merge_unknown_struct_fields(true);
    assert!(options.allow_null_fields && !options.coerce_numbers && options.merge_unknown_struct_fields);
    let options = options.coerce_numbers(true).allow_null_fields(false);
    assert!(!options.allow_null_fields && options.coerce_numbers && options.merge_unknown_struct_fields);
}
