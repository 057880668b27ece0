use serde_arrow::array::{Array, Values};
use serde_arrow::arrays::{deserialize_from_array, serialize_into_array};
use serde_arrow::error::Error;
use serde_arrow::event::{Event, IntType};
use serde_arrow::schema::{GenericDataType, GenericField, Strategy};

fn sequence(items: Vec<Event>) -> Vec<Event> {
    let mut events = vec![Event::StartList];
    events.extend(items);
    events.push(Event::EndList);
    events
}

fn text(value: &str) -> Event {
    Event::Str(String::from(value))
}

fn round_trip(field: &GenericField, items: Vec<Event>) -> Array {
    let events = sequence(items);
    let array = serialize_into_array(field, &events).unwrap();
    assert_eq!(deserialize_from_array(field, &array).unwrap(), events);
    array
}

fn tuple_of_i64() -> GenericField {
    GenericField::new("item", GenericDataType::Struct, false)
        .with_strategy(Strategy::TupleAsStruct)
        .with_child(GenericField::new("0", GenericDataType::I64, false))
}

#[test]
fn tuple_struct_of_one_i64() {
    let field = tuple_of_i64();
    let mut items = Vec::new();
    for value in [-1i64, 2, 3, -4] {
        items.push(Event::StartTuple);
        items.push(Event::I64(value));
        items.push(Event::EndTuple);
    }
    let array = round_trip(&field, items);
    assert_eq!(
        array,
        Array::Struct {
            validity: vec![true; 4],
            columns: vec![Array::Primitive {
                validity: vec![true; 4],
                values: Values::Int(IntType::I64, vec![-1, 2, 3, -4]),
            }],
        }
    );
}

#[test]
fn tuple_with_too_few_or_too_many_elements_is_refused() {
    let field = tuple_of_i64();
    assert_eq!(
        serialize_into_array(&field, &sequence(vec![Event::StartTuple, Event::EndTuple])),
        Err(Error::ProtocolViolation)
    );
    assert_eq!(
        serialize_into_array(
            &field,
            &sequence(vec![Event::StartTuple, Event::I64(1), Event::I64(2), Event::EndTuple])
        ),
        Err(Error::ProtocolViolation)
    );
    assert_eq!(
        serialize_into_array(
            &field,
            &sequence(vec![Event::StartTuple, Event::I64(1), Event::EndStruct])
        ),
        Err(Error::ProtocolViolation)
    );
}

#[test]
fn absent_tuple_keeps_the_element_columns_aligned() {
    let field = GenericField::new("item", GenericDataType::Struct, true)
        .with_strategy(Strategy::TupleAsStruct)
        .with_child(GenericField::new("0", GenericDataType::I64, false))
        .with_child(GenericField::new("1", GenericDataType::Utf8, false));
    let items = vec![
        Event::StartTuple,
        Event::I64(1),
        text("a"),
        Event::EndTuple,
        Event::Null,
        Event::StartTuple,
        Event::I64(3),
        text("c"),
        Event::EndTuple,
    ];
    let array = round_trip(&field, items);
    match &array {
        Array::Struct { validity, columns } => {
            assert_eq!(validity, &vec![true, false, true]);
            assert_eq!(columns[0].len(), 3);
            assert_eq!(columns[1].len(), 3);
        }
        other => panic!("unexpected array {other:?}"),
    }
}

fn point() -> GenericField {
    GenericField::new("item", GenericDataType::Struct, false)
        .with_child(GenericField::new("x", GenericDataType::I32, false))
        .with_child(GenericField::new("label", GenericDataType::Utf8, true))
}

#[test]
fn struct_of_two_fields() {
    let items = vec![
        Event::StartStruct,
        text("x"),
        Event::I32(1),
        text("label"),
        text("one"),
        Event::EndStruct,
        Event::StartStruct,
        text("x"),
        Event::I32(2),
        text("label"),
        Event::Null,
        Event::EndStruct,
    ];
    let array = round_trip(&point(), items);
    assert_eq!(
        array,
        Array::Struct {
            validity: vec![true, true],
            columns: vec![
                Array::Primitive { validity: vec![true, true], values: Values::Int(IntType::I32, vec![1, 2]) },
                Array::Primitive {
                    validity: vec![true, false],
                    values: Values::Utf8(vec![String::from("one"), String::new()]),
                },
            ],
        }
    );
}

#[test]
fn struct_fields_out_of_order_are_refused() {
    let items = vec![
        Event::StartStruct,
        text("label"),
        text("one"),
        text("x"),
        Event::I32(1),
        Event::EndStruct,
    ];
    assert_eq!(serialize_into_array(&point(), &sequence(items)), Err(Error::ProtocolViolation));
}

#[test]
fn struct_with_a_missing_field_is_refused() {
    let items = vec![Event::StartStruct, text("x"), Event::I32(1), Event::EndStruct];
    assert_eq!(serialize_into_array(&point(), &sequence(items)), Err(Error::ProtocolViolation));
}

#[test]
fn struct_with_a_value_in_place_of_a_name_is_refused() {
    let items = vec![Event::StartStruct, Event::I32(1), Event::EndStruct];
    assert_eq!(serialize_into_array(&point(), &sequence(items)), Err(Error::ProtocolViolation));
}

#[test]
fn defaulted_struct_is_present_with_zero_fields() {
    let field = point();
    let array = serialize_into_array(&field, &sequence(vec![Event::Default])).unwrap();
    assert_eq!(
        deserialize_from_array(&field, &array).unwrap(),
        sequence(vec![
            Event::StartStruct,
            text("x"),
            Event::I32(0),
            text("label"),
            text(""),
            Event::EndStruct,
        ])
    );
}

fn list_of_u8() -> GenericField {
    GenericField::new("item", GenericDataType::LargeList, true)
        .with_child(GenericField::new("element", GenericDataType::U8, false))
}

#[test]
fn list_offsets_follow_the_items() {
    let items = vec![
        Event::StartList,
        Event::U8(1),
        Event::U8(2),
        Event::EndList,
        Event::StartList,
        Event::EndList,
        Event::Null,
        Event::StartList,
        Event::U8(3),
        Event::EndList,
    ];
    let array = round_trip(&list_of_u8(), items);
    assert_eq!(
        array,
        Array::List {
            validity: vec![true, true, false, true],
            offsets: vec![0, 2, 2, 2, 3],
            items: Box::new(Array::Primitive {
                validity: vec![true; 3],
                values: Values::Int(IntType::U8, vec![1, 2, 3]),
            }),
        }
    );
}

#[test]
fn list_of_lists() {
    let field = GenericField::new("item", GenericDataType::List, false).with_child(list_of_u8());
    let items = vec![
        Event::StartList,
        Event::StartList,
        Event::U8(1),
        Event::EndList,
        Event::Null,
        Event::StartList,
        Event::U8(2),
        Event::U8(3),
        Event::EndList,
        Event::EndList,
        Event::StartList,
        Event::EndList,
    ];
    let array = round_trip(&field, items);
    match array {
        Array::List { offsets, items, .. } => {
            assert_eq!(offsets, vec![0, 3, 3]);
            match *items {
                Array::List { validity, offsets, .. } => {
                    assert_eq!(validity, vec![true, false, true]);
                    assert_eq!(offsets, vec![0, 1, 1, 3]);
                }
                other => panic!("unexpected array {other:?}"),
            }
        }
        other => panic!("unexpected array {other:?}"),
    }
}

#[test]
fn unclosed_list_is_refused() {
    let events = vec![Event::StartList, Event::StartList, Event::U8(1), Event::EndList];
    assert_eq!(serialize_into_array(&list_of_u8(), &events), Err(Error::ProtocolViolation));
}

#[test]
fn list_closed_by_another_container_is_refused() {
    let items = vec![Event::StartList, Event::U8(1), Event::EndTuple];
    assert_eq!(serialize_into_array(&list_of_u8(), &sequence(items)), Err(Error::ProtocolViolation));
}

fn map_of_text_to_i16() -> GenericField {
    GenericField::new("item", GenericDataType::Mapping, false)
        .with_child(GenericField::new("key", GenericDataType::Utf8, false))
        .with_child(GenericField::new("value", GenericDataType::I16, true))
}

#[test]
fn map_entries_lie_side_by_side() {
    let items = vec![
        Event::StartMap,
        text("a"),
        Event::I16(1),
        text("b"),
        Event::Null,
        Event::EndMap,
        Event::StartMap,
        Event::EndMap,
        Event::StartMap,
        text("c"),
        Event::I16(3),
        Event::EndMap,
    ];
    let array = round_trip(&map_of_text_to_i16(), items);
    assert_eq!(
        array,
        Array::Mapping {
            validity: vec![true; 3],
            offsets: vec![0, 2, 2, 3],
            keys: Box::new(Array::Primitive {
                validity: vec![true; 3],
                values: Values::Utf8(vec![String::from("a"), String::from("b"), String::from("c")]),
            }),
            entries: Box::new(Array::Primitive {
                validity: vec![true, false, true],
                values: Values::Int(IntType::I16, vec![1, 0, 3]),
            }),
        }
    );
}

#[test]
fn map_that_ends_after_a_key_is_refused() {
    let items = vec![Event::StartMap, text("a"), Event::EndMap];
    assert_eq!(
        serialize_into_array(&map_of_text_to_i16(), &sequence(items)),
        Err(Error::ProtocolViolation)
    );
}

fn number_or_text() -> GenericField {
    GenericField::new("item", GenericDataType::Union, false)
        .with_child(GenericField::new("Number", GenericDataType::I32, false))
        .with_child(GenericField::new("Text", GenericDataType::Utf8, false))
}

fn variant(name: &str, index: usize) -> Event {
    Event::Variant(String::from(name), index)
}

#[test]
fn union_records_the_variant_of_every_row() {
    let items = vec![
        variant("Text", 1),
        text("a"),
        variant("Number", 0),
        Event::I32(7),
        variant("Text", 1),
        text("b"),
    ];
    let array = round_trip(&number_or_text(), items);
    assert_eq!(
        array,
        Array::Union {
            types: vec![1, 0, 1],
            slots: vec![0, 0, 1],
            columns: vec![
                Array::Primitive { validity: vec![true], values: Values::Int(IntType::I32, vec![7]) },
                Array::Primitive {
                    validity: vec![true; 2],
                    values: Values::Utf8(vec![String::from("a"), String::from("b")]),
                },
            ],
        }
    );
}

#[test]
fn union_refuses_an_unknown_variant_and_an_absent_value() {
    assert_eq!(
        serialize_into_array(&number_or_text(), &sequence(vec![variant("Other", 2), Event::I32(1)])),
        Err(Error::TypeMismatch)
    );
    assert_eq!(
        serialize_into_array(&number_or_text(), &sequence(vec![Event::Null])),
        Err(Error::TypeMismatch)
    );
    assert_eq!(
        serialize_into_array(&number_or_text(), &sequence(vec![variant("Text", 1), Event::I32(1)])),
        Err(Error::TypeMismatch)
    );
}

#[test]
fn union_without_a_value_after_the_variant_is_refused() {
    let field = GenericField::new("item", GenericDataType::List, false).with_child(number_or_text());
    let items = vec![Event::StartList, variant("Number", 0), Event::EndList];
    assert_eq!(serialize_into_array(&field, &sequence(items)), Err(Error::ProtocolViolation));
}

#[test]
fn default_union_is_the_zero_of_the_first_variant() {
    let field = number_or_text();
    let array = serialize_into_array(&field, &sequence(vec![Event::Default])).unwrap();
    assert_eq!(
        deserialize_from_array(&field, &array).unwrap(),
        sequence(vec![variant("Number", 0), Event::I32(0)])
    );
}

fn dictionary() -> GenericField {
    GenericField::new("item", GenericDataType::Dictionary, true)
        .with_child(GenericField::new("key", GenericDataType::U32, false))
        .with_child(GenericField::new("value", GenericDataType::LargeUtf8, false))
}

#[test]
fn dictionary_lists_the_strings_in_first_seen_order() {
    let array = round_trip(&dictionary(), vec![text("a"), text("a"), text("b"), text("a")]);
    assert_eq!(
        array,
        Array::Dictionary {
            validity: vec![true; 4],
            indices: vec![0, 0, 1, 0],
            dictionary: vec![String::from("a"), String::from("b")],
        }
    );
}

#[test]
fn dictionary_with_absent_values() {
    let array = round_trip(&dictionary(), vec![Event::Null, text("x"), Event::Null, text("x")]);
    match array {
        Array::Dictionary { validity, indices, dictionary } => {
            assert_eq!(validity, vec![false, true, false, true]);
            assert_eq!(indices[1], 0);
            assert_eq!(indices[3], 0);
            assert_eq!(dictionary, vec![String::from("x")]);
        }
        other => panic!("unexpected array {other:?}"),
    }
}

#[test]
fn dictionary_needs_integer_keys_and_string_values() {
    let field = GenericField::new("item", GenericDataType::Dictionary, true)
        .with_child(GenericField::new("key", GenericDataType::Utf8, false))
        .with_child(GenericField::new("value", GenericDataType::LargeUtf8, false));
    assert_eq!(serialize_into_array(&field, &sequence(vec![text("a")])), Err(Error::UnsupportedType));
    let field = GenericField::new("item", GenericDataType::Dictionary, true);
    assert_eq!(serialize_into_array(&field, &sequence(vec![text("a")])), Err(Error::UnsupportedType));
}

#[test]
fn containers_need_their_children() {
    let list = GenericField::new("item", GenericDataType::List, false);
    assert_eq!(serialize_into_array(&list, &sequence(vec![])), Err(Error::UnsupportedType));
    let map = GenericField::new("item", GenericDataType::Mapping, false)
        .with_child(GenericField::new("key", GenericDataType::Utf8, false));
    assert_eq!(serialize_into_array(&map, &sequence(vec![])), Err(Error::UnsupportedType));
    let union = GenericField::new("item", GenericDataType::Union, false);
    assert_eq!(serialize_into_array(&union, &sequence(vec![])), Err(Error::UnsupportedType));
    let nested = GenericField::new("item", GenericDataType::Struct, false)
        .with_child(GenericField::new("items", GenericDataType::LargeList, false));
    assert_eq!(serialize_into_array(&nested, &sequence(vec![])), Err(Error::UnsupportedType));
}

#[test]
fn struct_in_list_in_map_in_union() {
    let entry = GenericField::new("value", GenericDataType::List, false).with_child(point());
    let map = GenericField::new("Entries", GenericDataType::Mapping, true)
        .with_child(GenericField::new("key", GenericDataType::U8, false))
        .with_child(entry);
    let field = GenericField::new("item", GenericDataType::Union, false)
        .with_child(GenericField::new("Nothing", GenericDataType::Null, true))
        .with_child(map);
    let items = vec![
        variant("Entries", 1),
        Event::StartMap,
        Event::U8(1),
        Event::StartList,
        Event::StartStruct,
        text("x"),
        Event::I32(5),
        text("label"),
        Event::Null,
        Event::EndStruct,
        Event::Null,
        Event::EndList,
        Event::U8(2),
        Event::StartList,
        Event::EndList,
        Event::EndMap,
        variant("Nothing", 0),
        Event::Null,
        variant("Entries", 1),
        Event::Null,
    ];
    let array = round_trip(&field, items);
    assert_eq!(array.len(), 3);
}
