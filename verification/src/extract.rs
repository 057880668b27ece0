//! Columns checked against their schema before they are read.
use vstd::prelude::*;
use crate::array::{lemma_columns, lemma_columns_fit, monotone, Array, Values};
use crate::error::{Error, Result};
use crate::event::{FloatType, IntType};
use crate::model::Shape;
use crate::schema::{GenericDataType, GenericField};

verus! {

/// Whether the column can be read as a column of the field: the field has
/// a builder, the buffers are consistent, and the column has the buffers
/// of the field's type.
pub open spec fn readable(field: &GenericField, array: &Array) -> bool {
    field.supported() && array.wf() && array.fits(field.shape())
}

/// Whether every integer lies in the range of the width.
fn ints_in_range(ty: IntType, values: &Vec<i128>) -> (r: bool)
    ensures
        r == forall|i: int| 0 <= i < values.len() ==> ty.holds(#[trigger] values[i] as int),
{
    let mut k: usize = 0;
    while k < values.len()
        invariant
            k <= values.len(),
            forall|i: int| 0 <= i < k ==> ty.holds(#[trigger] values[i] as int),
        decreases values.len() - k,
    {
        if !ty.fits(values[k]) {
            return false;
        }
        k = k + 1;
    }
    true
}

/// Whether the offsets never decrease.
fn offsets_monotone(offsets: &Vec<usize>) -> (r: bool)
    ensures
        r == monotone(offsets@),
{
    let mut k: usize = 1;
    while k < offsets.len()
        invariant
            1 <= k,
            k <= offsets.len() || offsets.len() == 0,
            forall|i: int, j: int| 0 <= i <= j < k && j < offsets.len() ==> offsets[i] <= offsets[j],
        decreases offsets.len() - k,
    {
        if offsets[k - 1] > offsets[k] {
            return false;
        }
        k = k + 1;
    }
    true
}

/// Whether the key of every present row names an entry of the dictionary.
fn keys_in_range(validity: &Vec<bool>, indices: &Vec<usize>, entries: usize) -> (r: bool)
    requires
        indices.len() == validity.len(),
    ensures
        r == forall|i: int|
            0 <= i < indices.len() && validity[i] ==> (#[trigger] indices[i]) < entries,
{
    let mut k: usize = 0;
    while k < indices.len()
        invariant
            k <= indices.len(),
            indices.len() == validity.len(),
            forall|i: int| 0 <= i < k && validity[i] ==> (#[trigger] indices[i]) < entries,
        decreases indices.len() - k,
    {
        if validity[k] && indices[k] >= entries {
            return false;
        }
        k = k + 1;
    }
    true
}

/// Whether the value buffer is that of a column of the field, with one
/// value per row.
fn values_readable(field: &GenericField, rows: usize, values: &Values) -> (r: bool)
    ensures
        r == (values.wf(rows as nat) && match field.shape() {
            Shape::DateText(_) => values.shape() == Shape::Int(IntType::I64),
            shape => values.shape() == shape,
        }),
{
    match values {
        Values::Null => matches!(field.data_type, GenericDataType::Null),
        Values::Bool(v) => v.len() == rows && matches!(field.data_type, GenericDataType::Bool),
        Values::Int(ty, v) => {
            let declared = match field.data_type {
                GenericDataType::Date64 => Some(IntType::I64),
                data_type => data_type.int_type()};
            match declared {
                Some(d) => d == *ty && v.len() == rows && ints_in_range(*ty, v),
                None => false,
            }
        },
        Values::Float(ty, v) => v.len() == rows && match field.data_type {
            GenericDataType::F16 => matches!(ty, FloatType::F16),
            GenericDataType::F32 => matches!(ty, FloatType::F32),
            GenericDataType::F64 => matches!(ty, FloatType::F64),
            _ => false,
        },
        Values::Utf8(v) => v.len() == rows && matches!(
            field.data_type,
            GenericDataType::Utf8 | GenericDataType::LargeUtf8
        ),
    }
}

/// Whether every row of a union names a variant and a row that the
/// variant's column holds.
fn slots_in_range(types: &Vec<usize>, slots: &Vec<usize>, columns: &Vec<Array>) -> (r: bool)
    requires
        types.len() == slots.len(),
    ensures
        r == forall|i: int|
            0 <= i < types.len() ==> {
                &&& (#[trigger] types[i]) < columns.len()
                &&& slots[i] < columns[types[i] as int].rows().len()
            },
{
    let mut k: usize = 0;
    while k < types.len()
        invariant
            k <= types.len(),
            types.len() == slots.len(),
            forall|i: int|
                0 <= i < k ==> {
                    &&& (#[trigger] types[i]) < columns.len()
                    &&& slots[i] < columns[types[i] as int].rows().len()
                },
        decreases types.len() - k,
    {
        if types[k] >= columns.len() || slots[k] >= columns[types[k]].len() {
            return false;
        }
        k = k + 1;
    }
    true
}

/// Whether the columns can be read as columns of the field's children,
/// each with `rows` rows where a number is given.
fn columns_conform(field: &GenericField, columns: &Vec<Array>, rows: Option<usize>) -> (r: bool)
    requires
        forall|j: int| 0 <= j < field.children.len() ==> (#[trigger] field.children[j]).supported(),
    ensures
        r == (columns.len() == field.children.len() && forall|j: int|
            0 <= j < columns.len() ==> {
                &&& (#[trigger] columns[j]).wf()
                &&& columns[j].fits(field.children[j].shape())
                &&& rows matches Some(n) ==> columns[j].rows().len() == n
            }),
    decreases columns, 2nat,
{
    if columns.len() != field.children.len() {
        return false;
    }
    let mut k: usize = 0;
    while k < columns.len()
        invariant
            k <= columns.len(),
            columns.len() == field.children.len(),
            forall|j: int|
                0 <= j < field.children.len() ==> (#[trigger] field.children[j]).supported(),
            forall|j: int|
                0 <= j < k ==> {
                    &&& (#[trigger] columns[j]).wf()
                    &&& columns[j].fits(field.children[j].shape())
                    &&& rows matches Some(n) ==> columns[j].rows().len() == n
                },
        decreases columns.len() - k,
    {
        if !conforming(&field.children[k], &columns[k]) {
            return false;
        }
        match rows {
            Some(n) => {
                if columns[k].len() != n {
                    return false;
                }
            },
            None => {},
        }
        k = k + 1;
    }
    true
}

/// `conforming`, for a column of lists.
fn list_conforming(field: &GenericField, array: &Array) -> (r: bool)
    requires
        field.supported(),
        array is List,
    ensures
        r == (array.wf() && array.fits(field.shape())),
    decreases array, 0nat,
{
    match array {
        Array::List { validity, offsets, items } => {
            matches!(field.data_type, GenericDataType::List | GenericDataType::LargeList)
                && validity.len() < usize::MAX && offsets.len() == validity.len() + 1
                && offsets_monotone(offsets) && offsets[offsets.len() - 1] <= items.len()
                && conforming(&field.children[0], items)
        },
        _ => false,
    }
}

/// `conforming`, for a column of maps.
fn map_conforming(field: &GenericField, array: &Array) -> (r: bool)
    requires
        field.supported(),
        array is Mapping,
    ensures
        r == (array.wf() && array.fits(field.shape())),
    decreases array, 0nat,
{
    match array {
        Array::Mapping { validity, offsets, keys, entries } => {
            matches!(field.data_type, GenericDataType::Mapping) && validity.len() < usize::MAX
                && offsets.len() == validity.len() + 1 && offsets_monotone(offsets)
                && offsets[offsets.len() - 1] <= keys.len() && offsets[offsets.len() - 1]
                <= entries.len() && conforming(&field.children[0], keys) && conforming(
                &field.children[1],
                entries,
            )
        },
        _ => false,
    }
}

/// `conforming`, for a column of structs or tuples.
fn struct_conforming(field: &GenericField, array: &Array) -> (r: bool)
    requires
        field.supported(),
        array is Struct,
    ensures
        r == (array.wf() && array.fits(field.shape())),
    decreases array, 0nat,
{
    match array {
        Array::Struct { validity, columns } => {
            proof {
                lemma_columns(columns@);
                lemma_columns_fit(columns@, field.named_children());
            }
            if !matches!(field.data_type, GenericDataType::Struct) {
                return false;
            }
            let r = columns_conform(field, columns, Some(validity.len()));
            proof {
                if r {
                    assert forall|j: int| 0 <= j < columns.len() implies (
                    #[trigger] columns[j]).fits(field.named_children()[j].shape) by {
                        assert(columns[j].wf());
                    }
                    assert forall|j: int| 0 <= j < columns.len() implies (
                    #[trigger] Array::column_rows(columns@)[j]).len() == validity.len() by {
                        assert(columns[j].wf());
                    }
                } else if array.wf() && array.fits(field.shape()) {
                    assert forall|j: int| 0 <= j < columns.len() implies {
                        &&& (#[trigger] columns[j]).wf()
                        &&& columns[j].fits(field.children[j].shape())
                        &&& columns[j].rows().len() == validity.len()
                    } by {
                        assert(columns[j].fits(field.named_children()[j].shape));
                        assert(Array::column_rows(columns@)[j].len() == validity.len());
                    }
                }
            }
            r
        },
        _ => false,
    }
}

/// `conforming`, for a column of tagged unions.
fn union_conforming(field: &GenericField, array: &Array) -> (r: bool)
    requires
        field.supported(),
        array is Union,
    ensures
        r == (array.wf() && array.fits(field.shape())),
    decreases array, 0nat,
{
    match array {
        Array::Union { types, slots, columns } => {
            proof {
                lemma_columns(columns@);
                lemma_columns_fit(columns@, field.named_children());
            }
            if !matches!(field.data_type, GenericDataType::Union) {
                return false;
            }
            let fit = columns_conform(field, columns, None);
            proof {
                if fit {
                    assert forall|j: int| 0 <= j < columns.len() implies (
                    #[trigger] columns[j]).fits(field.named_children()[j].shape) by {
                        assert(columns[j].wf());
                    }
                } else if array.wf() && array.fits(field.shape()) {
                    assert forall|j: int| 0 <= j < columns.len() implies {
                        &&& (#[trigger] columns[j]).wf()
                        &&& columns[j].fits(field.children[j].shape())
                    } by {
                        assert(columns[j].fits(field.named_children()[j].shape));
                    }
                }
            }
            if !fit || types.len() != slots.len() {
                return false;
            }
            let r = slots_in_range(types, slots, columns);
            proof {
                assert forall|i: int| 0 <= i < types.len() && types[i] < columns.len() implies (
                #[trigger] Array::column_rows(columns@)[types[i] as int])
                    == columns[types[i] as int].rows() by {
                    assert(columns[types[i] as int].wf());
                }
                if r {
                    assert forall|i: int| 0 <= i < types.len() implies {
                        &&& (#[trigger] types[i]) < columns.len()
                        &&& slots[i] < Array::column_rows(columns@)[types[i] as int].len()
                    } by {
                        assert(Array::column_rows(columns@)[types[i] as int]
                            == columns[types[i] as int].rows());
                    }
                } else if array.wf() {
                    assert forall|i: int| 0 <= i < types.len() implies {
                        &&& (#[trigger] types[i]) < columns.len()
                        &&& slots[i] < columns[types[i] as int].rows().len()
                    } by {
                        assert(Array::column_rows(columns@)[types[i] as int]
                            == columns[types[i] as int].rows());
                    }
                }
            }
            r
        },
        _ => false,
    }
}

/// Whether the buffers are consistent and are those of a column of the
/// field.
pub fn conforming(field: &GenericField, array: &Array) -> (r: bool)
    requires
        field.supported(),
    ensures
        r == (array.wf() && array.fits(field.shape())),
    decreases array, 1nat,
{
    match array {
        Array::Primitive { validity, values } => values_readable(field, validity.len(), values),
        Array::Dictionary { validity, indices, dictionary } => {
            matches!(field.data_type, GenericDataType::Dictionary) && indices.len()
                == validity.len() && keys_in_range(validity, indices, dictionary.len())
        },
        Array::List { .. } => list_conforming(field, array),
        Array::Struct { .. } => struct_conforming(field, array),
        Array::Mapping { .. } => map_conforming(field, array),
        Array::Union { .. } => union_conforming(field, array),
    }
}

/// Checks that the column can be read as a column of the field, and gives
/// its number of rows.
///
/// Fails with `UnsupportedType` where the field has no builder, and with
/// `TypeMismatch` where the column's buffers are inconsistent or are not
/// those of the field's type.
pub fn extract_buffers(field: &GenericField, array: &Array) -> (r: Result<usize>)
    ensures
        match r {
            Ok(n) => readable(field, array) && n == array.rows().len(),
            Err(e) => !readable(field, array) && e == if field.supported() {
                Error::TypeMismatch
            } else {
                Error::UnsupportedType
            },
        },
{
    if !field.is_supported() {
        return Err(Error::UnsupportedType);
    }
    if !conforming(field, array) {
        return Err(Error::TypeMismatch);
    }
    Ok(array.len())
}

} // verus!
