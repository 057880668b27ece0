//! Schemas written out as the code that builds them.
use vstd::prelude::*;
use crate::schema::{strategy_text, GenericDataType, GenericField};

verus! {

/// The name of a data type.
pub open spec fn data_type_text(data_type: GenericDataType) -> Seq<char> {
    match data_type {
        GenericDataType::Null => "DataType::Null"@,
        GenericDataType::Bool => "DataType::Boolean"@,
        GenericDataType::I8 => "DataType::Int8"@,
        GenericDataType::I16 => "DataType::Int16"@,
        GenericDataType::I32 => "DataType::Int32"@,
        GenericDataType::I64 => "DataType::Int64"@,
        GenericDataType::U8 => "DataType::UInt8"@,
        GenericDataType::U16 => "DataType::UInt16"@,
        GenericDataType::U32 => "DataType::UInt32"@,
        GenericDataType::U64 => "DataType::UInt64"@,
        GenericDataType::F16 => "DataType::Float16"@,
        GenericDataType::F32 => "DataType::Float32"@,
        GenericDataType::F64 => "DataType::Float64"@,
        GenericDataType::Utf8 => "DataType::Utf8"@,
        GenericDataType::LargeUtf8 => "DataType::LargeUtf8"@,
        GenericDataType::Date64 => "DataType::Date64"@,
        GenericDataType::Struct => "DataType::Struct"@,
        GenericDataType::List => "DataType::List"@,
        GenericDataType::LargeList => "DataType::LargeList"@,
        GenericDataType::Union => "DataType::Union"@,
        GenericDataType::Mapping => "DataType::Map"@,
        GenericDataType::Dictionary => "DataType::Dictionary"@,
    }
}

/// The text of the first `count` children of the field, with a comma
/// between two of them.
pub open spec fn children_text(field: &GenericField, count: nat) -> Seq<char>
    decreases field, count,
{
    if count == 0 {
        Seq::empty()
    } else {
        children_text(field, (count - 1) as nat) + (if count > 1 {
            ", "@
        } else {
            Seq::empty()
        }) + (if count - 1 < field.children.len() {
            field_text(&field.children[count - 1])
        } else {
            Seq::empty()
        })
    }
}

/// The text of a field: the call that builds it, with its name as it is,
/// its type, with the children in brackets where it has any, its nullable
/// flag, and its strategy where it has one.
pub open spec fn field_text(field: &GenericField) -> Seq<char>
    decreases field, field.children.len() + 1,
{
    "Field::new(\""@ + field.name@ + "\", "@ + data_type_text(field.data_type) + (
    if field.children.len() > 0 {
        "(vec!["@ + children_text(field, field.children.len() as nat) + "])"@
    } else {
        Seq::empty()
    }) + (if field.nullable {
        ", true)"@
    } else {
        ", false)"@
    }) + (match field.strategy {
        Some(strategy) => ".with_strategy(Strategy::"@ + strategy_text(strategy) + ")"@,
        None => Seq::empty(),
    })
}

/// The text of the first `count` fields, with a comma between two of them.
pub open spec fn fields_text(fields: Seq<GenericField>, count: nat) -> Seq<char>
    decreases count,
{
    if count == 0 {
        Seq::empty()
    } else {
        fields_text(fields, (count - 1) as nat) + (if count > 1 {
            ", "@
        } else {
            Seq::empty()
        }) + field_text(&fields[count - 1])
    }
}

/// The name of a data type.
fn format_type(data_type: GenericDataType) -> (r: &'static str)
    ensures
        r@ == data_type_text(data_type),
{
    match data_type {
        GenericDataType::Null => "DataType::Null",
        GenericDataType::Bool => "DataType::Boolean",
        GenericDataType::I8 => "DataType::Int8",
        GenericDataType::I16 => "DataType::Int16",
        GenericDataType::I32 => "DataType::Int32",
        GenericDataType::I64 => "DataType::Int64",
        GenericDataType::U8 => "DataType::UInt8",
        GenericDataType::U16 => "DataType::UInt16",
        GenericDataType::U32 => "DataType::UInt32",
        GenericDataType::U64 => "DataType::UInt64",
        GenericDataType::F16 => "DataType::Float16",
        GenericDataType::F32 => "DataType::Float32",
        GenericDataType::F64 => "DataType::Float64",
        GenericDataType::Utf8 => "DataType::Utf8",
        GenericDataType::LargeUtf8 => "DataType::LargeUtf8",
        GenericDataType::Date64 => "DataType::Date64",
        GenericDataType::Struct => "DataType::Struct",
        GenericDataType::List => "DataType::List",
        GenericDataType::LargeList => "DataType::LargeList",
        GenericDataType::Union => "DataType::Union",
        GenericDataType::Mapping => "DataType::Map",
        GenericDataType::Dictionary => "DataType::Dictionary",
    }
}

/// Writes a field out as the call that builds it.
pub fn format_field(field: &GenericField) -> (r: String)
    ensures
        r@ == field_text(field),
    decreases field,
{
    let mut r = String::from_str("Field::new(\"");
    r.append(field.name.as_str());
    r.append("\", ");
    r.append(format_type(field.data_type));
    if field.children.len() > 0 {
        r.append("(vec![");
        let ghost head = r@;
        let mut k: usize = 0;
        while k < field.children.len()
            invariant
                k <= field.children.len(),
                r@ == head + children_text(field, k as nat),
            decreases field.children.len() - k,
        {
            if k > 0 {
                r.append(", ");
            }
            let child = format_field(&field.children[k]);
            r.append(child.as_str());
            proof {
                assert(r@ =~= head + children_text(field, (k + 1) as nat));
            }
            k = k + 1;
        }
        r.append("])");
    }
    if field.nullable {
        r.append(", true)");
    } else {
        r.append(", false)");
    }
    match field.strategy {
        Some(strategy) => {
            r.append(".with_strategy(Strategy::");
            r.append(strategy.name());
            r.append(")");
        },
        None => {},
    }
    proof {
        assert(r@ =~= field_text(field));
    }
    r
}

/// Writes the fields out as code that builds them: one call per field,
/// with `DataType`, `Field` and `Strategy` taken to be in scope. Names
/// are written as they are.
pub fn format_fields(fields: &Vec<GenericField>) -> (r: String)
    ensures
        r@ == fields_text(fields@, fields.len() as nat),
{
    let mut r = String::new();
    let mut k: usize = 0;
    while k < fields.len()
        invariant
            k <= fields.len(),
            r@ == fields_text(fields@, k as nat),
        decreases fields.len() - k,
    {
        if k > 0 {
            r.append(", ");
        }
        let field = format_field(&fields[k]);
        r.append(field.as_str());
        proof {
            assert(r@ =~= fields_text(fields@, (k + 1) as nat));
        }
        k = k + 1;
    }
    r
}

} // verus!
