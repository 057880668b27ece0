use serde_arrow::array::{Array, Values};
use serde_arrow::arrays::{deserialize_from_array, serialize_into_array};
use serde_arrow::datetime::DateTimeForm;
use serde_arrow::error::Error;
use serde_arrow::event::{Event, IntType};
use serde_arrow::schema::{GenericDataType, GenericField, Strategy};
use serde_arrow::builder::chrono::{DateTimeStrBuilder, NaiveDateTimeStrBuilder};
use serde_arrow::builder::primitive::PrimitiveBuilder;
use serde_arrow::builder::sink::{feed_events, EventSink};
use serde_arrow::source::{ArraySource, DateTimeStrSource, EventSource, NaiveDateTimeStrSource};

fn collect_events<S: EventSource>(source: &mut S) -> Vec<Event> {
    let mut events = Vec::new();
    while let Some(event) = source.next().unwrap() {
        events.push(event);
    }
    events
}

fn sequence(items: Vec<Event>) -> Vec<Event> {
    let mut events = vec![Event::StartList];
    events.extend(items);
    events.push(Event::EndList);
    events
}

fn text(value: &str) -> Event {
    Event::Str(String::from(value))
}

#[test]
fn naive_text_is_milliseconds_since_the_epoch() {
    assert_eq!(DateTimeForm::Naive.parse("1970-01-01T00:00:00"), Ok(0));
    assert_eq!(DateTimeForm::Naive.parse("2015-09-18T23:56:04"), Ok(1_442_620_564_000));
    assert_eq!(DateTimeForm::Naive.parse("1969-12-31T23:59:59.999"), Ok(-1));
    assert_eq!(DateTimeForm::Naive.parse("2015-09-18T23:56:04Z"), Err(Error::EncodingError));
    assert_eq!(DateTimeForm::Naive.parse("2015-09-18"), Err(Error::EncodingError));
    assert_eq!(DateTimeForm::Naive.parse(""), Err(Error::EncodingError));
}

#[test]
fn utc_text_is_milliseconds_since_the_epoch() {
    assert_eq!(DateTimeForm::Utc.parse("1970-01-01T00:00:00Z"), Ok(0));
    assert_eq!(DateTimeForm::Utc.parse("2015-09-18T23:56:04Z"), Ok(1_442_620_564_000));
    assert_eq!(DateTimeForm::Utc.parse("2015-09-19T01:56:04+02:00"), Ok(1_442_620_564_000));
    assert_eq!(DateTimeForm::Utc.parse("2015-09-18T23:56:04"), Err(Error::EncodingError));
    assert_eq!(DateTimeForm::Utc.parse("yesterday"), Err(Error::EncodingError));
}

#[test]
fn milliseconds_are_printed_as_text() {
    assert_eq!(DateTimeForm::Naive.print(0).unwrap(), "1970-01-01T00:00:00");
    assert_eq!(DateTimeForm::Naive.print(1_442_620_564_000).unwrap(), "2015-09-18T23:56:04");
    assert_eq!(DateTimeForm::Naive.print(1).unwrap(), "1970-01-01T00:00:00.001");
    assert_eq!(DateTimeForm::Naive.print(-1).unwrap(), "1969-12-31T23:59:59.999");
    assert_eq!(DateTimeForm::Utc.print(0).unwrap(), "1970-01-01T00:00:00Z");
    assert_eq!(DateTimeForm::Utc.print(1_442_620_564_123).unwrap(), "2015-09-18T23:56:04.123Z");
    assert_eq!(DateTimeForm::Naive.print(i64::MAX), Err(Error::EncodingError));
    assert_eq!(DateTimeForm::Utc.print(i64::MIN), Err(Error::EncodingError));
}

#[test]
fn printed_text_is_read_back() {
    for millis in [0i64, 1, -1, 999, 1_442_620_564_123, -62_135_596_800_000, 253_402_300_799_999] {
        for form in [DateTimeForm::Naive, DateTimeForm::Utc] {
            let printed = form.print(millis).unwrap();
            assert_eq!(form.parse(&printed), Ok(millis));
        }
    }
}

fn naive() -> GenericField {
    GenericField::new("item", GenericDataType::Date64, true).with_strategy(Strategy::NaiveStrAsDate64)
}

fn utc() -> GenericField {
    GenericField::new("item", GenericDataType::Date64, false).with_strategy(Strategy::UtcStrAsDate64)
}

#[test]
fn naive_text_column() {
    let events = sequence(vec![text("2015-09-18T23:56:04"), Event::Null, text("1970-01-01T00:00:00.001")]);
    let array = serialize_into_array(&naive(), &events).unwrap();
    assert_eq!(
        array,
        Array::Primitive {
            validity: vec![true, false, true],
            values: Values::Int(IntType::I64, vec![1_442_620_564_000, 0, 1]),
        }
    );
    assert_eq!(deserialize_from_array(&naive(), &array).unwrap(), events);
}

#[test]
fn utc_text_column() {
    let events = sequence(vec![text("2015-09-18T23:56:04Z"), text("1970-01-01T00:00:00Z")]);
    let array = serialize_into_array(&utc(), &events).unwrap();
    assert_eq!(
        array,
        Array::Primitive {
            validity: vec![true, true],
            values: Values::Int(IntType::I64, vec![1_442_620_564_000, 0]),
        }
    );
    assert_eq!(deserialize_from_array(&utc(), &array).unwrap(), events);
}

#[test]
fn text_in_another_form_is_read_back_in_the_printed_form() {
    let events = sequence(vec![text("2015-09-19 01:56:04+02:00")]);
    let array = serialize_into_array(&utc(), &events).unwrap();
    assert_eq!(
        deserialize_from_array(&utc(), &array).unwrap(),
        sequence(vec![text("2015-09-18T23:56:04Z")])
    );
}

#[test]
fn malformed_text_is_an_encoding_error() {
    assert_eq!(
        serialize_into_array(&naive(), &sequence(vec![text("soon")])),
        Err(Error::EncodingError)
    );
    assert_eq!(serialize_into_array(&utc(), &sequence(vec![text("")])), Err(Error::EncodingError));
}

#[test]
fn text_column_also_takes_milliseconds() {
    let array = serialize_into_array(&naive(), &sequence(vec![Event::I64(1000), Event::U8(5)])).unwrap();
    assert_eq!(
        deserialize_from_array(&naive(), &array).unwrap(),
        sequence(vec![text("1970-01-01T00:00:01"), text("1970-01-01T00:00:00.005")])
    );
    assert_eq!(
        serialize_into_array(&naive(), &sequence(vec![Event::U64(u64::MAX)])),
        Err(Error::EncodingError)
    );
    assert_eq!(
        serialize_into_array(&naive(), &sequence(vec![Event::Bool(true)])),
        Err(Error::TypeMismatch)
    );
}

#[test]
fn plain_date64_column_holds_integers() {
    let field = GenericField::new("item", GenericDataType::Date64, false);
    let events = sequence(vec![Event::I64(12), Event::I64(-7)]);
    let array = serialize_into_array(&field, &events).unwrap();
    assert_eq!(deserialize_from_array(&field, &array).unwrap(), events);
    assert_eq!(serialize_into_array(&field, &sequence(vec![text("1970-01-01T00:00:00")])), Err(Error::TypeMismatch));
}

#[test]
fn milliseconds_without_a_date_cannot_be_read_as_text() {
    let array = Array::Primitive {
        validity: vec![true, true],
        values: Values::Int(IntType::I64, vec![0, i64::MAX as i128]),
    };
    assert_eq!(deserialize_from_array(&naive(), &array), Err(Error::EncodingError));
    let array = Array::Primitive {
        validity: vec![true, false],
        values: Values::Int(IntType::I64, vec![0, i64::MAX as i128]),
    };
    assert_eq!(
        deserialize_from_array(&naive(), &array).unwrap(),
        sequence(vec![text("1970-01-01T00:00:00"), Event::Null])
    );
}

fn plain() -> GenericField {
    GenericField::new("item", GenericDataType::Date64, true)
}

fn millis() -> Array {
    Array::Primitive {
        validity: vec![true, false, true],
        values: Values::Int(IntType::I64, vec![1_442_620_564_000, 0, 1]),
    }
}

#[test]
fn naive_source_hands_out_text() {
    let mut source = NaiveDateTimeStrSource(ArraySource::new(&plain(), &millis()).unwrap());
    assert_eq!(source.next(), Ok(Some(text("2015-09-18T23:56:04"))));
    assert_eq!(source.next(), Ok(Some(Event::Null)));
    assert_eq!(source.next(), Ok(Some(text("1970-01-01T00:00:00.001"))));
    assert_eq!(source.next(), Ok(None));
    assert_eq!(source.next(), Ok(None));
}

#[test]
fn utc_source_hands_out_text() {
    let mut source = DateTimeStrSource(ArraySource::new(&plain(), &millis()).unwrap());
    let events = collect_events(&mut source);
    assert_eq!(
        events,
        vec![text("2015-09-18T23:56:04Z"), Event::Null, text("1970-01-01T00:00:00.001Z")]
    );
}

#[test]
fn source_over_a_text_column_is_the_column_read_as_text() {
    let mut wrapped = NaiveDateTimeStrSource(ArraySource::new(&plain(), &millis()).unwrap());
    let mut direct = ArraySource::new(&naive(), &millis()).unwrap();
    assert_eq!(collect_events(&mut wrapped), collect_events(&mut direct));
}

#[test]
fn source_fails_where_milliseconds_have_no_date() {
    let array = Array::Primitive { validity: vec![true], values: Values::Int(IntType::I64, vec![i64::MIN as i128]) };
    let mut source = NaiveDateTimeStrSource(ArraySource::new(&plain(), &array).unwrap());
    assert_eq!(source.next(), Err(Error::EncodingError));
}

#[test]
fn text_builder_over_a_sink_of_integers() {
    let integers = || PrimitiveBuilder::new(Values::Int(IntType::I64, Vec::new()));
    let mut naive = NaiveDateTimeStrBuilder(integers());
    EventSink::accept(&mut naive, &text("1970-01-01T00:00:01")).unwrap();
    EventSink::accept(&mut naive, &Event::Null).unwrap();
    EventSink::accept(&mut naive, &Event::I64(5)).unwrap();
    assert_eq!(EventSink::accept(&mut naive, &text("1970-01-01T00:00:01Z")), Err(Error::EncodingError));
    assert_eq!(EventSink::accept(&mut naive, &Event::Bool(true)), Err(Error::TypeMismatch));
    assert_eq!(
        naive.0.build_array(),
        Array::Primitive {
            validity: vec![true, false, true],
            values: Values::Int(IntType::I64, vec![1000, 0, 5]),
        }
    );
    let mut utc = DateTimeStrBuilder(integers());
    let events = vec![text("1970-01-01T00:00:00.002Z"), text("never"), text("1970-01-01T00:00:00Z")];
    assert_eq!(feed_events(&mut utc, &events, 0, 3), Err(Error::EncodingError));
    assert_eq!(feed_events(&mut utc, &events, 2, 3), Ok(()));
    assert_eq!(
        utc.0.build_array(),
        Array::Primitive { validity: vec![true, true], values: Values::Int(IntType::I64, vec![2, 0]) }
    );
}
