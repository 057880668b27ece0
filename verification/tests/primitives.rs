use serde_arrow::array::{Array, Values};
use serde_arrow::arrays::{
    deserialize_from_array, serialize_into_array, serialize_into_field,
};
use serde_arrow::api::{from_arrow2, to_arrow2};
use serde_arrow::error::Error;
use serde_arrow::event::{Event, Float, FloatType};
use serde_arrow::schema::{GenericDataType, GenericField};
use serde_arrow::tracer::TracingOptions;

fn sequence(items: Vec<Event>) -> Vec<Event> {
    let mut events = vec![Event::StartList];
    events.extend(items);
    events.push(Event::EndList);
    events
}

fn records(items: &[Event]) -> Vec<Event> {
    let mut events = vec![Event::StartList];
    for item in items {
        events.push(Event::StartStruct);
        events.push(Event::Str(String::from("item")));
        events.push(item.clone());
        events.push(Event::EndStruct);
    }
    events.push(Event::EndList);
    events
}

fn validity(array: &Array) -> Vec<bool> {
    match array {
        Array::Primitive { validity, .. } => validity.clone(),
        Array::Dictionary { validity, .. } => validity.clone(),
        Array::List { validity, .. } => validity.clone(),
        Array::Struct { validity, .. } => validity.clone(),
        Array::Mapping { validity, .. } => validity.clone(),
        Array::Union { types, .. } => vec![true; types.len()],
    }
}

/// Traces the field, builds the column on both paths, checks the nulls and
/// reads the values back.
fn check_example(field: GenericField, options: TracingOptions, values: Vec<Event>, nulls: Vec<bool>) {
    let events = sequence(values.clone());

    let traced = serialize_into_field(&events, "item", options).unwrap();
    assert_eq!(traced, field);

    let array = serialize_into_array(&field, &events).unwrap();
    let expected: Vec<bool> = nulls.iter().map(|null| !null).collect();
    assert_eq!(validity(&array), expected);
    assert_eq!(array.len(), values.len());

    let back = deserialize_from_array(&field, &array).unwrap();
    assert_eq!(back, events);

    let fields = vec![field];
    let arrays = to_arrow2(&fields, &records(&values)).unwrap();
    assert_eq!(arrays.len(), 1);
    assert_eq!(arrays[0], array);
    let back = from_arrow2(&fields, &arrays).unwrap();
    assert_eq!(back, records(&values));
}

/// Builds the column of another field than the traced one and reads the
/// values back as values of that field.
fn check_overwrite(field: GenericField, overwrite: GenericField, values: Vec<Event>, back: Vec<Event>) {
    let events = sequence(values);
    let traced = serialize_into_field(&events, "item", TracingOptions::new()).unwrap();
    assert_eq!(traced, field);
    let array = serialize_into_array(&overwrite, &events).unwrap();
    assert_eq!(validity(&array), vec![true; back.len()]);
    assert_eq!(deserialize_from_array(&overwrite, &array).unwrap(), sequence(back));
}

#[test]
fn null() {
    let field = GenericField::new("item", GenericDataType::Null, true);
    let events = sequence(vec![Event::Null, Event::Null, Event::Null]);
    let options = TracingOptions::new().allow_null_fields(true);
    assert_eq!(serialize_into_field(&events, "item", options).unwrap(), field);
    let array = serialize_into_array(&field, &events).unwrap();
    assert_eq!(array, Array::Primitive { validity: vec![false; 3], values: Values::Null });
    assert_eq!(deserialize_from_array(&field, &array).unwrap(), events);
}

#[test]
fn null_needs_the_option() {
    let events = sequence(vec![Event::Null, Event::Null, Event::Null]);
    assert_eq!(
        serialize_into_field(&events, "item", TracingOptions::new()),
        Err(Error::SchemaInferenceFailure)
    );
}

#[test]
fn bool() {
    check_example(
        GenericField::new("item", GenericDataType::Bool, false),
        TracingOptions::new(),
        vec![Event::Bool(true), Event::Bool(false)],
        vec![false, false],
    );
}

#[test]
fn nullable_bool() {
    check_example(
        GenericField::new("item", GenericDataType::Bool, true),
        TracingOptions::new(),
        vec![Event::Bool(true), Event::Null, Event::Bool(false)],
        vec![false, true, false],
    );
}

#[test]
fn u8() {
    check_example(
        GenericField::new("item", GenericDataType::U8, false),
        TracingOptions::new(),
        vec![Event::U8(1), Event::U8(2), Event::U8(3), Event::U8(4)],
        vec![false, false, false, false],
    );
}

#[test]
fn nullable_u8() {
    check_example(
        GenericField::new("item", GenericDataType::U8, true),
        TracingOptions::new(),
        vec![Event::U8(1), Event::Null, Event::U8(3), Event::U8(4)],
        vec![false, true, false, false],
    );
}

#[test]
fn u16() {
    check_example(
        GenericField::new("item", GenericDataType::U16, false),
        TracingOptions::new(),
        vec![Event::U16(1), Event::U16(2), Event::U16(3), Event::U16(4)],
        vec![false, false, false, false],
    );
}

#[test]
fn nullable_u16() {
    check_example(
        GenericField::new("item", GenericDataType::U16, true),
        TracingOptions::new(),
        vec![Event::U16(1), Event::Null, Event::U16(3), Event::U16(4)],
        vec![false, true, false, false],
    );
}

#[test]
fn u32() {
    check_example(
        GenericField::new("item", GenericDataType::U32, false),
        TracingOptions::new(),
        vec![Event::U32(1), Event::U32(2), Event::U32(3), Event::U32(4)],
        vec![false, false, false, false],
    );
}

#[test]
fn nullable_u32() {
    check_example(
        GenericField::new("item", GenericDataType::U32, true),
        TracingOptions::new(),
        vec![Event::U32(1), Event::Null, Event::U32(3), Event::U32(4)],
        vec![false, true, false, false],
    );
}

#[test]
fn u64() {
    check_example(
        GenericField::new("item", GenericDataType::U64, false),
        TracingOptions::new(),
        vec![Event::U64(1), Event::U64(2), Event::U64(3), Event::U64(4)],
        vec![false, false, false, false],
    );
}

#[test]
fn nullable_u64() {
    check_example(
        GenericField::new("item", GenericDataType::U64, true),
        TracingOptions::new(),
        vec![Event::U64(1), Event::Null, Event::U64(3), Event::U64(4)],
        vec![false, true, false, false],
    );
}

#[test]
fn i8() {
    check_example(
        GenericField::new("item", GenericDataType::I8, false),
        TracingOptions::new(),
        vec![Event::I8(-1), Event::I8(2), Event::I8(-3), Event::I8(4)],
        vec![false, false, false, false],
    );
}

#[test]
fn nullable_i8() {
    check_example(
        GenericField::new("item", GenericDataType::I8, true),
        TracingOptions::new(),
        vec![Event::I8(-1), Event::Null, Event::I8(3), Event::I8(-4)],
        vec![false, true, false, false],
    );
}

#[test]
fn i16() {
    check_example(
        GenericField::new("item", GenericDataType::I16, false),
        TracingOptions::new(),
        vec![Event::I16(1), Event::I16(2), Event::I16(3), Event::I16(4)],
        vec![false, false, false, false],
    );
}

#[test]
fn nullable_i16() {
    check_example(
        GenericField::new("item", GenericDataType::I16, true),
        TracingOptions::new(),
        vec![Event::I16(-1), Event::Null, Event::I16(3), Event::I16(-4)],
        vec![false, true, false, false],
    );
}

#[test]
fn i32() {
    check_example(
        GenericField::new("item", GenericDataType::I32, false),
        TracingOptions::new(),
        vec![Event::I32(-1), Event::I32(2), Event::I32(-3), Event::I32(4)],
        vec![false, false, false, false],
    );
}

#[test]
fn nullable_i32() {
    check_example(
        GenericField::new("item", GenericDataType::I32, true),
        TracingOptions::new(),
        vec![Event::I32(-1), Event::Null, Event::I32(3), Event::I32(-4)],
        vec![false, true, false, false],
    );
}

#[test]
fn i64() {
    check_example(
        GenericField::new("item", GenericDataType::I64, false),
        TracingOptions::new(),
        vec![Event::I64(-1), Event::I64(2), Event::I64(-3), Event::I64(4)],
        vec![false, false, false, false],
    );
}

#[test]
fn nullable_i64() {
    check_example(
        GenericField::new("item", GenericDataType::I64, true),
        TracingOptions::new(),
        vec![Event::I64(-1), Event::Null, Event::I64(3), Event::I64(-4)],
        vec![false, true, false, false],
    );
}

fn f32_event(value: f32) -> Event {
    Event::F32(value.to_bits())
}

fn f64_event(value: f64) -> Event {
    Event::F64(value.to_bits())
}

#[test]
fn f32() {
    check_example(
        GenericField::new("item", GenericDataType::F32, false),
        TracingOptions::new(),
        vec![f32_event(-1.0), f32_event(2.0), f32_event(-3.0), f32_event(4.0)],
        vec![false, false, false, false],
    );
}

#[test]
fn nullable_f32() {
    check_example(
        GenericField::new("item", GenericDataType::F32, true),
        TracingOptions::new(),
        vec![f32_event(-1.0), Event::Null, f32_event(3.0), f32_event(-4.0)],
        vec![false, true, false, false],
    );
}

#[test]
fn f64() {
    check_example(
        GenericField::new("item", GenericDataType::F64, false),
        TracingOptions::new(),
        vec![f64_event(-1.0), f64_event(2.0), f64_event(-3.0), f64_event(4.0)],
        vec![false, false, false, false],
    );
}

#[test]
fn nullable_f64() {
    check_example(
        GenericField::new("item", GenericDataType::F64, true),
        TracingOptions::new(),
        vec![f64_event(-1.0), Event::Null, f64_event(3.0), f64_event(-4.0)],
        vec![false, true, false, false],
    );
}

#[test]
fn float_column_keeps_the_bits() {
    let field = GenericField::new("item", GenericDataType::F32, false);
    let array = serialize_into_array(&field, &sequence(vec![f32_event(1.5), f32_event(-0.0)])).unwrap();
    assert_eq!(
        array,
        Array::Primitive {
            validity: vec![true, true],
            values: Values::Float(
                FloatType::F32,
                vec![Float::F32(1.5f32.to_bits()), Float::F32((-0.0f32).to_bits())]
            ),
        }
    );
}

#[test]
fn floats_of_another_width_are_kept_as_they_are() {
    let events = sequence(vec![f64_event(-1.0), f32_event(2.0), Event::Default, f64_event(0.1)]);
    for (data_type, width, zero) in [
        (GenericDataType::F16, FloatType::F16, Float::F32(0)),
        (GenericDataType::F32, FloatType::F32, Float::F32(0)),
        (GenericDataType::F64, FloatType::F64, Float::F64(0)),
    ] {
        let field = GenericField::new("item", data_type, false);
        let array = serialize_into_array(&field, &events).unwrap();
        assert_eq!(
            array,
            Array::Primitive {
                validity: vec![true; 4],
                values: Values::Float(
                    width,
                    vec![
                        Float::F64((-1.0f64).to_bits()),
                        Float::F32(2.0f32.to_bits()),
                        zero,
                        Float::F64(0.1f64.to_bits()),
                    ]
                ),
            }
        );
        let back = deserialize_from_array(&field, &array).unwrap();
        assert_eq!(back[1], f64_event(-1.0));
        assert_eq!(back[2], f32_event(2.0));
        assert_eq!(back[4], f64_event(0.1));
    }
    let field = GenericField::new("item", GenericDataType::F32, false);
    assert_eq!(serialize_into_array(&field, &sequence(vec![Event::I8(1)])), Err(Error::TypeMismatch));
}

fn text(value: &str) -> Event {
    Event::Str(String::from(value))
}

#[test]
fn str() {
    check_example(
        GenericField::new("item", GenericDataType::LargeUtf8, false),
        TracingOptions::new(),
        vec![text("a"), text("b"), text("c"), text("d")],
        vec![false, false, false, false],
    );
}

#[test]
fn nullable_str() {
    check_example(
        GenericField::new("item", GenericDataType::LargeUtf8, true),
        TracingOptions::new(),
        vec![text("a"), Event::Null, Event::Null, text("d")],
        vec![false, true, true, false],
    );
}

#[test]
fn str_u32() {
    check_overwrite(
        GenericField::new("item", GenericDataType::LargeUtf8, false),
        GenericField::new("item", GenericDataType::Utf8, false),
        vec![text("a"), text("b"), text("c"), text("d")],
        vec![text("a"), text("b"), text("c"), text("d")],
    );
}

#[test]
fn nullable_str_u32() {
    let overwrite = GenericField::new("item", GenericDataType::Utf8, true);
    let events = sequence(vec![text("a"), Event::Null, Event::Null, text("d")]);
    let array = serialize_into_array(&overwrite, &events).unwrap();
    assert_eq!(validity(&array), vec![true, false, false, true]);
    assert_eq!(deserialize_from_array(&overwrite, &array).unwrap(), events);
}

#[test]
fn newtype_i64() {
    check_example(
        GenericField::new("item", GenericDataType::I64, false),
        TracingOptions::new(),
        vec![Event::I64(-1), Event::I64(2), Event::I64(3), Event::I64(-4)],
        vec![false, false, false, false],
    );
}

#[test]
fn u8_to_u16() {
    check_overwrite(
        GenericField::new("item", GenericDataType::U8, false),
        GenericField::new("item", GenericDataType::U16, false),
        vec![Event::U8(1), Event::U8(2), Event::U8(3), Event::U8(4)],
        vec![Event::U16(1), Event::U16(2), Event::U16(3), Event::U16(4)],
    );
}

#[test]
fn u32_to_i64() {
    check_overwrite(
        GenericField::new("item", GenericDataType::U32, false),
        GenericField::new("item", GenericDataType::I64, false),
        vec![Event::U32(1), Event::U32(2), Event::U32(3), Event::U32(4)],
        vec![Event::I64(1), Event::I64(2), Event::I64(3), Event::I64(4)],
    );
}

#[test]
fn chars() {
    check_example(
        GenericField::new("item", GenericDataType::U32, false),
        TracingOptions::new(),
        vec![Event::U32('a' as u32), Event::U32('b' as u32), Event::U32('c' as u32)],
        vec![false, false, false],
    );
}

#[test]
fn narrowing_that_overflows_fails() {
    let field = GenericField::new("item", GenericDataType::I8, false);
    assert_eq!(
        serialize_into_array(&field, &sequence(vec![Event::I64(127), Event::I64(128)])),
        Err(Error::EncodingError)
    );
    let field = GenericField::new("item", GenericDataType::U16, false);
    assert_eq!(
        serialize_into_array(&field, &sequence(vec![Event::I8(-1)])),
        Err(Error::EncodingError)
    );
    let field = GenericField::new("item", GenericDataType::I64, false);
    assert_eq!(
        serialize_into_array(&field, &sequence(vec![Event::U64(u64::MAX)])),
        Err(Error::EncodingError)
    );
}

#[test]
fn narrowing_within_range_keeps_the_value() {
    let field = GenericField::new("item", GenericDataType::I8, false);
    let array = serialize_into_array(
        &field,
        &sequence(vec![Event::I64(-128), Event::U64(127), Event::U16(5)]),
    )
    .unwrap();
    assert_eq!(
        array,
        Array::Primitive { validity: vec![true; 3], values: Values::Int(serde_arrow::event::IntType::I8, vec![-128, 127, 5]) }
    );
    assert_eq!(
        deserialize_from_array(&field, &array).unwrap(),
        sequence(vec![Event::I8(-128), Event::I8(127), Event::I8(5)])
    );
}

#[test]
fn a_value_of_another_type_is_a_mismatch() {
    let field = GenericField::new("item", GenericDataType::Bool, false);
    assert_eq!(serialize_into_array(&field, &sequence(vec![Event::I8(1)])), Err(Error::TypeMismatch));
    assert_eq!(serialize_into_array(&field, &sequence(vec![text("a")])), Err(Error::TypeMismatch));
    assert_eq!(
        serialize_into_array(&field, &sequence(vec![Event::Bytes(vec![1, 2])])),
        Err(Error::TypeMismatch)
    );
    assert_eq!(
        serialize_into_array(&field, &sequence(vec![Event::StartTuple, Event::EndTuple])),
        Err(Error::TypeMismatch)
    );
}

#[test]
fn default_is_the_zero_of_the_type() {
    let field = GenericField::new("item", GenericDataType::I32, false);
    let array = serialize_into_array(&field, &sequence(vec![Event::I32(7), Event::Default])).unwrap();
    assert_eq!(
        deserialize_from_array(&field, &array).unwrap(),
        sequence(vec![Event::I32(7), Event::I32(0)])
    );
    let field = GenericField::new("item", GenericDataType::Utf8, false);
    let array = serialize_into_array(&field, &sequence(vec![Event::Default])).unwrap();
    assert_eq!(deserialize_from_array(&field, &array).unwrap(), sequence(vec![text("")]));
    let field = GenericField::new("item", GenericDataType::Bool, false);
    let array = serialize_into_array(&field, &sequence(vec![Event::Default])).unwrap();
    assert_eq!(validity(&array), vec![true]);
    assert_eq!(deserialize_from_array(&field, &array).unwrap(), sequence(vec![Event::Bool(false)]));
}

#[test]
fn f32_from_f64() {
    let values: Vec<Event> = [-1.0, 2.0, -3.0, 4.0].into_iter().map(f64_event).collect();
    check_overwrite(
        GenericField::new("item", GenericDataType::F64, false),
        GenericField::new("item", GenericDataType::F32, false),
        values.clone(),
        values,
    );
}

#[test]
fn f64_from_f32() {
    let values: Vec<Event> = [-1.0, 2.0, -3.0, 4.0].into_iter().map(f32_event).collect();
    check_overwrite(
        GenericField::new("item", GenericDataType::F32, false),
        GenericField::new("item", GenericDataType::F64, false),
        values.clone(),
        values,
    );
}

#[test]
fn f16_from_f32() {
    let values: Vec<Event> = [-1.0, 2.0, -3.0, 4.0].into_iter().map(f32_event).collect();
    check_overwrite(
        GenericField::new("item", GenericDataType::F32, false),
        GenericField::new("item", GenericDataType::F16, false),
        values.clone(),
        values,
    );
}

#[test]
fn f16_from_f64() {
    let values: Vec<Event> = [-1.0, 2.0, -3.0, 4.0].into_iter().map(f64_event).collect();
    check_overwrite(
        GenericField::new("item", GenericDataType::F64, false),
        GenericField::new("item", GenericDataType::F16, false),
        values.clone(),
        values,
    );
}
