use serde_arrow::api::{from_arrow2, to_arrow2, ArrayBuilder, Arrow2Builder};
use serde_arrow::arrays::{
    deserialize_from_array, serialize_into_array, serialize_into_field, serialize_into_fields,
};
use serde_arrow::array::{Array, Values};
use serde_arrow::builder::dynamic::DynamicArrayBuilder;
use serde_arrow::builder::factory::{build_compiled_builder, build_struct_array_builder};
use serde_arrow::display::{format_field, format_fields};
use serde_arrow::error::Error;
use serde_arrow::event::{Event, Float, FloatType, IntType};
use serde_arrow::extract::extract_buffers;
use serde_arrow::internal::serialize_into_arrays;
use serde_arrow::interpreter::{compile_serialization, Interpreter, Opcode};
use serde_arrow::schema::{GenericDataType, GenericField, Strategy};
use serde_arrow::tracer::TracingOptions;

fn sequence(items: Vec<Event>) -> Vec<Event> {
    let mut events = vec![Event::StartList];
    events.extend(items);
    events.push(Event::EndList);
    events
}

fn text(value: &str) -> Event {
    Event::Str(String::from(value))
}

fn record(a: Event, b: Event) -> Vec<Event> {
    vec![Event::StartStruct, text("a"), a, text("b"), b, Event::EndStruct]
}

fn flat() -> Vec<GenericField> {
    vec![
        GenericField::new("a", GenericDataType::F32, true),
        GenericField::new("b", GenericDataType::U64, false),
    ]
}

fn nested() -> Vec<GenericField> {
    vec![
        GenericField::new("a", GenericDataType::F32, true),
        GenericField::new("b", GenericDataType::LargeList, false)
            .with_child(GenericField::new("element", GenericDataType::U64, false)),
    ]
}

#[test]
fn builder_of_records() {
    let mut builder = Arrow2Builder::new(flat()).unwrap();
    builder.push(&record(Event::F32(1.0f32.to_bits()), Event::U64(2))).unwrap();
    builder.push(&record(Event::F32(3.0f32.to_bits()), Event::U64(4))).unwrap();
    builder.push(&record(Event::F32(5.0f32.to_bits()), Event::U64(5))).unwrap();
    let mut more = Vec::new();
    more.extend(record(Event::F32(6.0f32.to_bits()), Event::U64(7)));
    more.extend(record(Event::Null, Event::U64(9)));
    more.extend(record(Event::F32(10.0f32.to_bits()), Event::U64(11)));
    builder.extend(&sequence(more)).unwrap();
    let arrays = builder.build_arrays().unwrap();
    assert_eq!(arrays.len(), 2);
    assert_eq!(arrays[0].len(), 6);
    assert_eq!(
        arrays[1],
        Array::Primitive {
            validity: vec![true; 6],
            values: Values::Int(IntType::U64, vec![2, 4, 5, 7, 9, 11]),
        }
    );
    let again = builder.build_arrays().unwrap();
    assert_eq!(again[0].len(), 0);
}

#[test]
fn flat_records_run_a_program_and_nested_records_the_tree() {
    assert!(matches!(build_compiled_builder(&flat()).unwrap(), DynamicArrayBuilder::Compiled(_)));
    assert!(matches!(build_compiled_builder(&nested()).unwrap(), DynamicArrayBuilder::Struct(_)));
    assert!(matches!(build_struct_array_builder(&flat()).unwrap(), DynamicArrayBuilder::Struct(_)));
    assert!(compile_serialization(&nested()).is_none());
}

#[test]
fn program_is_a_cycle_over_the_fields() {
    let program = compile_serialization(&flat()).unwrap();
    let steps: Vec<(Opcode, usize, usize)> =
        program.instructions.iter().map(|i| (i.opcode, i.slot, i.next)).collect();
    assert_eq!(
        steps,
        vec![
            (Opcode::EnterRecord, 0, 1),
            (Opcode::FieldName, 0, 2),
            (Opcode::PushValue, 0, 3),
            (Opcode::FieldName, 1, 4),
            (Opcode::PushValue, 1, 5),
            (Opcode::LeaveRecord, 0, 0),
        ]
    );
    assert_eq!(program.instructions[1].name, "a");
    assert_eq!(program.instructions[3].name, "b");
    assert_eq!(program.buffers.len(), 2);
    let interpreter = Interpreter::new(program);
    assert_eq!(interpreter.pc, 0);
}

#[test]
fn empty_schema_has_the_shortest_program() {
    let program = compile_serialization(&Vec::new()).unwrap();
    assert_eq!(program.instructions.len(), 2);
    let arrays = to_arrow2(&Vec::new(), &sequence(vec![Event::StartStruct, Event::EndStruct])).unwrap();
    assert!(arrays.is_empty());
}

/// Streams on which the program and the tree must agree, builds and
/// failures alike.
fn streams() -> Vec<Vec<Event>> {
    let good = record(Event::F32(7), Event::U64(1));
    let mut out = vec![
        sequence(vec![]),
        sequence(good.clone()),
        sequence(vec![Event::Null]),
        sequence(vec![Event::Default]),
        sequence(vec![Event::Null, Event::Default]),
        sequence(record(Event::Null, Event::U8(1))),
        sequence(record(Event::Default, Event::Default)),
        sequence(record(Event::F32(7), Event::Null)),
        sequence(record(Event::F64(7), Event::U64(1))),
        sequence(record(Event::F32(7), Event::I8(-1))),
        sequence(record(Event::F32(7), text("x"))),
        sequence(record(Event::StartList, Event::U64(1))),
        sequence(record(Event::EndList, Event::U64(1))),
        sequence(record(Event::Variant(String::from("v"), 0), Event::U64(1))),
        sequence(vec![Event::StartStruct, Event::EndStruct]),
        sequence(vec![Event::StartStruct, text("a"), Event::F32(1), Event::EndStruct]),
        sequence(vec![Event::StartStruct, text("b"), Event::U64(1), text("a"), Event::F32(1), Event::EndStruct]),
        sequence(vec![Event::StartStruct, text("a"), Event::F32(1), text("b"), Event::U64(1), text("c"), Event::U64(1), Event::EndStruct]),
        sequence(vec![Event::StartStruct, text("a"), Event::F32(1), text("b"), Event::U64(1), Event::EndTuple]),
        sequence(vec![Event::StartStruct, Event::F32(1)]),
        sequence(vec![Event::StartTuple, Event::F32(1), Event::U64(1), Event::EndTuple]),
        sequence(vec![Event::EndStruct]),
        sequence(vec![Event::U8(1)]),
        vec![Event::StartList],
        vec![],
    ];
    let mut many = Vec::new();
    for i in 0..5u64 {
        many.extend(record(Event::F32(i as u32), Event::U64(i)));
        many.push(Event::Null);
    }
    out.push(sequence(many));
    out
}

#[test]
fn program_builds_what_the_tree_builds() {
    for events in streams() {
        assert_eq!(to_arrow2(&flat(), &events), serialize_into_arrays(&flat(), &events));
    }
}

#[test]
fn program_and_tree_agree_event_by_event() {
    for events in streams() {
        let mut compiled = build_compiled_builder(&flat()).unwrap();
        let mut tree = build_struct_array_builder(&flat()).unwrap();
        for event in &events {
            assert_eq!(compiled.accept(event), tree.accept(event));
            assert_eq!(compiled.idle(), tree.idle());
            assert_eq!(compiled.len(), tree.len());
        }
        if compiled.idle() {
            assert_eq!(compiled.build_array(), tree.build_array());
        }
    }
}

#[test]
fn nested_records_on_the_compiled_path() {
    let mut items = vec![Event::StartStruct, text("a"), Event::Null, text("b"), Event::StartList];
    items.extend(vec![Event::U64(1), Event::U64(2), Event::EndList, Event::EndStruct]);
    let events = sequence(items);
    let arrays = to_arrow2(&nested(), &events).unwrap();
    assert_eq!(from_arrow2(&nested(), &arrays).unwrap(), events);
}

#[test]
fn unsupported_field_fails_on_both_paths() {
    let fields = vec![GenericField::new("a", GenericDataType::Union, false)];
    assert_eq!(to_arrow2(&fields, &sequence(vec![])), Err(Error::UnsupportedType));
    assert_eq!(serialize_into_arrays(&fields, &sequence(vec![])), Err(Error::UnsupportedType));
    assert!(Arrow2Builder::new(fields).is_err());
}

#[test]
fn builder_of_one_column() {
    let field = GenericField::new("item", GenericDataType::U8, false);
    let mut builder = ArrayBuilder::new(&field).unwrap();
    builder.push(&vec![Event::U8(0)]).unwrap();
    builder.push(&vec![Event::U8(1)]).unwrap();
    builder.push(&vec![Event::U8(2)]).unwrap();
    builder.extend(&sequence(vec![Event::U8(3), Event::U8(4), Event::U8(5)])).unwrap();
    let array = builder.build_array().unwrap();
    assert_eq!(
        array,
        Array::Primitive {
            validity: vec![true; 6],
            values: Values::Int(IntType::U8, vec![0, 1, 2, 3, 4, 5]),
        }
    );
    assert_eq!(builder.build_array().unwrap().len(), 0);
    assert!(ArrayBuilder::new(&GenericField::new("item", GenericDataType::List, false)).is_err());
}

#[test]
fn builder_of_one_column_inside_a_value() {
    let field = GenericField::new("item", GenericDataType::List, false)
        .with_child(GenericField::new("element", GenericDataType::U8, false));
    let mut builder = ArrayBuilder::new(&field).unwrap();
    builder.push(&vec![Event::StartList, Event::U8(1)]).unwrap();
    assert_eq!(builder.build_array(), Err(Error::ProtocolViolation));
    assert_eq!(builder.extend(&sequence(vec![])), Err(Error::ProtocolViolation));
    builder.push(&vec![Event::EndList]).unwrap();
    assert_eq!(builder.build_array().unwrap().len(), 1);
}

#[test]
fn both_paths_serve_the_traced_schema() {
    let mut items = Vec::new();
    items.extend(record(Event::F32(1), Event::U64(2)));
    let events = sequence(items);
    let fields = serialize_into_fields(&events, TracingOptions::new()).unwrap();
    assert_eq!(
        fields,
        vec![
            GenericField::new("a", GenericDataType::F32, false),
            GenericField::new("b", GenericDataType::U64, false),
        ]
    );
    let arrays = to_arrow2(&fields, &events).unwrap();
    assert_eq!(arrays, serialize_into_arrays(&fields, &events).unwrap());
    assert_eq!(from_arrow2(&fields, &arrays).unwrap(), events);
    let items = sequence(vec![Event::U32(1), Event::U32(2), Event::U32(3)]);
    let field = serialize_into_field(&items, "numbers", TracingOptions::new()).unwrap();
    assert_eq!(field, GenericField::new("numbers", GenericDataType::U32, false));
    let array = serialize_into_array(&field, &items).unwrap();
    assert_eq!(deserialize_from_array(&field, &array).unwrap(), items);
}

#[test]
fn columns_that_do_not_fit_their_field_are_refused() {
    let numbers = Array::Primitive { validity: vec![true], values: Values::Int(IntType::U8, vec![1]) };
    let field = GenericField::new("item", GenericDataType::U8, false);
    assert_eq!(extract_buffers(&field, &numbers), Ok(1));
    let wider = GenericField::new("item", GenericDataType::U16, false);
    assert_eq!(extract_buffers(&wider, &numbers), Err(Error::TypeMismatch));
    let half = GenericField::new("item", GenericDataType::F16, false);
    assert_eq!(extract_buffers(&half, &numbers), Err(Error::TypeMismatch));
    let childless = GenericField::new("item", GenericDataType::Mapping, false);
    assert_eq!(extract_buffers(&childless, &numbers), Err(Error::UnsupportedType));
    let floats = Array::Primitive {
        validity: vec![true],
        values: Values::Float(FloatType::F16, vec![Float::F64(0)]),
    };
    assert_eq!(extract_buffers(&half, &floats), Ok(1));
    let single = GenericField::new("item", GenericDataType::F32, false);
    assert_eq!(extract_buffers(&single, &floats), Err(Error::TypeMismatch));
    let out_of_range =
        Array::Primitive { validity: vec![true], values: Values::Int(IntType::U8, vec![256]) };
    assert_eq!(extract_buffers(&field, &out_of_range), Err(Error::TypeMismatch));
    let short = Array::Primitive { validity: vec![true, true], values: Values::Int(IntType::U8, vec![1]) };
    assert_eq!(extract_buffers(&field, &short), Err(Error::TypeMismatch));
}

#[test]
fn malformed_buffers_are_refused() {
    let list = GenericField::new("item", GenericDataType::List, false)
        .with_child(GenericField::new("element", GenericDataType::U8, false));
    let items = || Box::new(Array::Primitive {
        validity: vec![true, true],
        values: Values::Int(IntType::U8, vec![1, 2]),
    });
    let good = Array::List { validity: vec![true, true], offsets: vec![0, 1, 2], items: items() };
    assert_eq!(extract_buffers(&list, &good), Ok(2));
    let decreasing = Array::List { validity: vec![true, true], offsets: vec![0, 2, 1], items: items() };
    assert_eq!(extract_buffers(&list, &decreasing), Err(Error::TypeMismatch));
    let beyond = Array::List { validity: vec![true, true], offsets: vec![0, 1, 3], items: items() };
    assert_eq!(extract_buffers(&list, &beyond), Err(Error::TypeMismatch));
    let too_few = Array::List { validity: vec![true, true], offsets: vec![0, 1], items: items() };
    assert_eq!(extract_buffers(&list, &too_few), Err(Error::TypeMismatch));
    let none = Array::List { validity: vec![], offsets: vec![], items: items() };
    assert_eq!(extract_buffers(&list, &none), Err(Error::TypeMismatch));

    let dictionary = GenericField::new("item", GenericDataType::Dictionary, true)
        .with_child(GenericField::new("key", GenericDataType::U32, false))
        .with_child(GenericField::new("value", GenericDataType::Utf8, false));
    let dangling = Array::Dictionary {
        validity: vec![true],
        indices: vec![1],
        dictionary: vec![String::from("a")],
    };
    assert_eq!(extract_buffers(&dictionary, &dangling), Err(Error::TypeMismatch));
    let absent = Array::Dictionary {
        validity: vec![false],
        indices: vec![1],
        dictionary: vec![String::from("a")],
    };
    assert_eq!(extract_buffers(&dictionary, &absent), Ok(1));

    let union = GenericField::new("item", GenericDataType::Union, false)
        .with_child(GenericField::new("A", GenericDataType::U8, false));
    let column = || Array::Primitive { validity: vec![true], values: Values::Int(IntType::U8, vec![1]) };
    let good = Array::Union { types: vec![0], slots: vec![0], columns: vec![column()] };
    assert_eq!(extract_buffers(&union, &good), Ok(1));
    let no_variant = Array::Union { types: vec![1], slots: vec![0], columns: vec![column()] };
    assert_eq!(extract_buffers(&union, &no_variant), Err(Error::TypeMismatch));
    let no_slot = Array::Union { types: vec![0], slots: vec![1], columns: vec![column()] };
    assert_eq!(extract_buffers(&union, &no_slot), Err(Error::TypeMismatch));

    let pair = GenericField::new("item", GenericDataType::Struct, false)
        .with_child(GenericField::new("a", GenericDataType::U8, false));
    let ragged = Array::Struct { validity: vec![true, true], columns: vec![column()] };
    assert_eq!(extract_buffers(&pair, &ragged), Err(Error::TypeMismatch));
}

#[test]
fn reading_needs_a_column_per_field() {
    let arrays =
        vec![Array::Primitive { validity: vec![], values: Values::Float(FloatType::F32, vec![]) }];
    assert_eq!(from_arrow2(&flat(), &arrays), Err(Error::TypeMismatch));
    assert_eq!(from_arrow2(&Vec::new(), &Vec::new()).unwrap(), sequence(vec![]));
}

#[test]
fn fields_written_out_as_code() {
    assert_eq!(
        format_fields(&flat()),
        "Field::new(\"a\", DataType::Float32, true), Field::new(\"b\", DataType::UInt64, false)"
    );
    assert_eq!(format_fields(&Vec::new()), "");
    let tuple = GenericField::new("t", GenericDataType::Struct, false)
        .with_strategy(Strategy::TupleAsStruct)
        .with_child(GenericField::new("0", GenericDataType::Bool, false))
        .with_child(
            GenericField::new("1", GenericDataType::LargeList, true)
                .with_child(GenericField::new("element", GenericDataType::Date64, false)
                    .with_strategy(Strategy::UtcStrAsDate64)),
        );
    assert_eq!(
        format_field(&tuple),
        "Field::new(\"t\", DataType::Struct(vec![Field::new(\"0\", DataType::Boolean, false), \
         Field::new(\"1\", DataType::LargeList(vec![Field::new(\"element\", DataType::Date64, \
         false).with_strategy(Strategy::UtcStrAsDate64)]), true)]), \
         false).with_strategy(Strategy::TupleAsStruct)"
    );
}

#[test]
fn failures_have_a_message() {
    for error in [
        Error::SchemaInferenceFailure,
        Error::ProtocolViolation,
        Error::UnsupportedType,
        Error::TypeMismatch,
        Error::EncodingError,
    ] {
        assert!(!error.message().is_empty());
    }
    assert_eq!(Error::ProtocolViolation.message(), "malformed event stream");
}

#[test]
fn strategy_from_metadata() {
    let entry = |key: &str, value: &str| (String::from(key), String::from(value));
    assert_eq!(Strategy::from_metadata(&vec![]), None);
    assert_eq!(
        Strategy::from_metadata(&vec![entry("other", "x"), entry("SERDE_ARROW:strategy", "TupleAsStruct")]),
        Some(Strategy::TupleAsStruct)
    );
    assert_eq!(
        Strategy::from_metadata(&vec![
            entry("SERDE_ARROW:strategy", "UtcStrAsDate64"),
            entry("SERDE_ARROW:strategy", "TupleAsStruct"),
        ]),
        Some(Strategy::UtcStrAsDate64)
    );
    assert_eq!(
        Strategy::from_metadata(&vec![
            entry("SERDE_ARROW:strategy", "Unknown"),
            entry("SERDE_ARROW:strategy", "TupleAsStruct"),
        ]),
        None
    );
    assert_eq!(Strategy::from_metadata(&vec![entry("strategy", "TupleAsStruct")]), None);
    for strategy in [Strategy::UtcStrAsDate64, Strategy::NaiveStrAsDate64, Strategy::TupleAsStruct] {
        let name = String::from(strategy.name());
        assert_eq!(Strategy::from_name(&name), Some(strategy));
    }
    assert_eq!(Strategy::from_name(&String::from("tupleasstruct")), None);
    assert_eq!(Strategy::to_metadata(None), vec![]);
    assert_eq!(
        Strategy::to_metadata(Some(Strategy::NaiveStrAsDate64)),
        vec![entry("SERDE_ARROW:strategy", "NaiveStrAsDate64")]
    );
    assert_eq!(
        Strategy::from_metadata(&Strategy::to_metadata(Some(Strategy::TupleAsStruct))),
        Some(Strategy::TupleAsStruct)
    );
}
