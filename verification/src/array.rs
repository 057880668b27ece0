//! Columnar buffers: what a builder produces and a source reads.
use vstd::prelude::*;
use crate::event::{Float, FloatType, IntType};
use crate::model::{Named, Shape, Value};

verus! {

/// The value buffer of a primitive column, one element per row.
///
/// Integers of every width are held as `i128`. Floating point numbers are
/// held as the bit patterns in which they arrived, whatever the declared
/// width: bringing them to the declared width is floating point
/// arithmetic, which is left to whoever lays the column out in memory.
#[derive(Debug, PartialEq, Eq)]
pub enum Values {
    /// A column of the null type has no values.
    Null,
    Bool(Vec<bool>),
    Int(IntType, Vec<i128>),
    Float(FloatType, Vec<Float>),
    Utf8(Vec<String>),
}

impl Values {
    /// The shape of the values.
    pub open spec fn shape(&self) -> Shape {
        match self {
            Values::Null => Shape::Null,
            Values::Bool(_) => Shape::Bool,
            Values::Int(ty, _) => Shape::Int(*ty),
            Values::Float(ty, _) => Shape::Float(*ty),
            Values::Utf8(_) => Shape::Utf8,
        }
    }

    /// The number of values, if the buffer has any.
    pub open spec fn len(&self) -> Option<nat> {
        match self {
            Values::Null => None,
            Values::Bool(v) => Some(v.len() as nat),
            Values::Int(_, v) => Some(v.len() as nat),
            Values::Float(_, v) => Some(v.len() as nat),
            Values::Utf8(v) => Some(v.len() as nat),
        }
    }

    /// The buffer holds a value for each of `rows` rows, and every integer
    /// lies in the range of the declared width.
    pub open spec fn wf(&self, rows: nat) -> bool {
        &&& self.len() matches Some(n) ==> n == rows
        &&& self matches Values::Int(ty, v) ==> forall|i: int|
            0 <= i < v.len() ==> ty.holds(#[trigger] v[i] as int)
    }

    /// The value in row `i`, taken as present.
    pub open spec fn value_at(&self, i: int) -> Value {
        match self {
            Values::Null => Value::Null,
            Values::Bool(v) => Value::Bool(v[i]),
            Values::Int(_, v) => Value::Int(v[i] as int),
            Values::Float(_, v) => match v[i] {
                Float::F32(bits) => Value::F32(bits),
                Float::F64(bits) => Value::F64(bits),
            },
            Values::Utf8(v) => Value::Str(v[i]@),
        }
    }

    /// An empty buffer of the same kind.
    pub fn fresh(&self) -> (r: Values)
        ensures
            r.shape() == self.shape(),
            r.wf(0),
    {
        match self {
            Values::Null => Values::Null,
            Values::Bool(_) => Values::Bool(Vec::new()),
            Values::Int(ty, _) => Values::Int(*ty, Vec::new()),
            Values::Float(ty, _) => Values::Float(*ty, Vec::new()),
            Values::Utf8(_) => Values::Utf8(Vec::new()),
        }
    }

    /// Appends the zero of the type: the placeholder of an absent row and
    /// the value of a defaulted one.
    pub fn push_zero(&mut self)
        ensures
            final(self).shape() == old(self).shape(),
            forall|n: nat| old(self).wf(n) ==> final(self).wf(n + 1),
            forall|i: int|
                0 <= i && (old(self).len() matches Some(n) && i < n) ==> final(self).value_at(i)
                    == old(self).value_at(i),
            old(self).len() matches Some(n) ==> final(self).value_at(n as int) == old(
                self,
            ).shape().default_value(),
    {
        match self {
            Values::Null => {},
            Values::Bool(v) => {
                v.push(false);
            },
            Values::Int(ty, v) => {
                v.push(0);
            },
            Values::Float(ty, v) => {
                v.push(
                    match ty {
                        FloatType::F64 => Float::F64(0),
                        _ => Float::F32(0),
                    },
                );
            },
            Values::Utf8(v) => {
                v.push(String::new());
            },
        }
    }
}

/// Whether the offsets never decrease.
pub open spec fn monotone(offsets: Seq<usize>) -> bool {
    forall|i: int, j: int| 0 <= i <= j < offsets.len() ==> offsets[i] <= offsets[j]
}

/// The rows of a column of lists over the given items.
pub open spec fn list_rows(validity: Seq<bool>, offsets: Seq<usize>, items: Seq<Value>) -> Seq<
    Value,
> {
    Seq::new(
        validity.len(),
        |i: int|
            if validity[i] {
                Value::List(items.subrange(offsets[i] as int, offsets[i + 1] as int))
            } else {
                Value::Null
            },
    )
}

/// The entries from `from` up to `to`: key and value side by side.
pub open spec fn entries(keys: Seq<Value>, values: Seq<Value>, from: int, to: int) -> Seq<
    (Value, Value),
> {
    Seq::new((to - from) as nat, |k: int| (keys[from + k], values[from + k]))
}

/// The rows of a column of maps over the given keys and values.
pub open spec fn map_rows(
    validity: Seq<bool>,
    offsets: Seq<usize>,
    keys: Seq<Value>,
    values: Seq<Value>,
) -> Seq<Value> {
    Seq::new(
        validity.len(),
        |i: int|
            if validity[i] {
                Value::Mapping(entries(keys, values, offsets[i] as int, offsets[i + 1] as int))
            } else {
                Value::Null
            },
    )
}

/// The rows of a column of records whose fields have the given rows.
pub open spec fn record_rows(validity: Seq<bool>, columns: Seq<Seq<Value>>) -> Seq<Value> {
    Seq::new(
        validity.len(),
        |i: int|
            if validity[i] {
                Value::Record(Seq::new(columns.len(), |j: int| columns[j][i]))
            } else {
                Value::Null
            },
    )
}

/// The rows of a column of unions whose variants have the given rows.
pub open spec fn union_rows(types: Seq<usize>, offsets: Seq<usize>, columns: Seq<Seq<Value>>) -> Seq<
    Value,
> {
    Seq::new(
        types.len(),
        |i: int|
            Value::Variant(
                types[i] as int,
                Box::new(
                    if types[i] < columns.len() {
                        columns[types[i] as int][offsets[i] as int]
                    } else {
                        Value::Null
                    },
                ),
            ),
    )
}

/// The rows of a dictionary-encoded column.
pub open spec fn dictionary_rows(validity: Seq<bool>, keys: Seq<usize>, dictionary: Seq<String>) -> Seq<
    Value,
> {
    Seq::new(
        validity.len(),
        |i: int|
            if validity[i] {
                Value::Str(dictionary[keys[i] as int]@)
            } else {
                Value::Null
            },
    )
}

/// The rows of a primitive column.
pub open spec fn primitive_rows(validity: Seq<bool>, values: Values) -> Seq<Value> {
    Seq::new(
        validity.len(),
        |i: int|
            if validity[i] {
                values.value_at(i)
            } else {
                Value::Null
            },
    )
}

/// One column: its buffers, and the columns below it.
///
/// A validity flag that is unset makes the row absent; what the other
/// buffers hold in that row is a placeholder.
#[derive(Debug, PartialEq, Eq)]
pub enum Array {
    Primitive { validity: Vec<bool>, values: Values },
    /// Row `i` is the string `dictionary[indices[i]]`.
    Dictionary { validity: Vec<bool>, indices: Vec<usize>, dictionary: Vec<String> },
    /// Row `i` holds the items from `offsets[i]` up to `offsets[i + 1]`.
    List { validity: Vec<bool>, offsets: Vec<usize>, items: Box<Array> },
    /// Structs and tuples: row `i` holds row `i` of every column.
    Struct { validity: Vec<bool>, columns: Vec<Array> },
    /// Row `i` holds the entries from `offsets[i]` up to `offsets[i + 1]`.
    Mapping { validity: Vec<bool>, offsets: Vec<usize>, keys: Box<Array>, entries: Box<Array> },
    /// Row `i` is the variant `types[i]` with row `slots[i]` of its column.
    Union { types: Vec<usize>, slots: Vec<usize>, columns: Vec<Array> },
}

impl Array {
    /// The rows of every column below a struct or a union.
    pub open spec fn column_rows(columns: Seq<Array>) -> Seq<Seq<Value>>
        decreases columns,
    {
        if columns.len() == 0 {
            Seq::empty()
        } else {
            Self::column_rows(columns.drop_last()).push(columns.last().rows())
        }
    }

    /// The rows of the column.
    pub open spec fn rows(&self) -> Seq<Value>
        decreases self,
    {
        match self {
            Array::Primitive { validity, values } => primitive_rows(validity@, *values),
            Array::Dictionary { validity, indices, dictionary } => dictionary_rows(
                validity@,
                indices@,
                dictionary@,
            ),
            Array::List { validity, offsets, items } => list_rows(
                validity@,
                offsets@,
                items.rows(),
            ),
            Array::Struct { validity, columns } => record_rows(
                validity@,
                Self::column_rows(columns@),
            ),
            Array::Mapping { validity, offsets, keys, entries } => map_rows(
                validity@,
                offsets@,
                keys.rows(),
                entries.rows(),
            ),
            Array::Union { types, slots, columns } => union_rows(
                types@,
                slots@,
                Self::column_rows(columns@),
            ),
        }
    }

    /// Every one of the columns is well formed.
    pub open spec fn columns_wf(columns: Seq<Array>) -> bool
        decreases columns,
    {
        columns.len() > 0 ==> Self::columns_wf(columns.drop_last()) && columns.last().wf()
    }

    /// The buffers are consistent: there is a value for every row, offsets
    /// never decrease and stay within the items, and keys and slots name
    /// what exists.
    pub open spec fn wf(&self) -> bool
        decreases self,
    {
        match self {
            Array::Primitive { validity, values } => values.wf(validity.len() as nat),
            Array::Dictionary { validity, indices, dictionary } => {
                &&& indices.len() == validity.len()
                &&& forall|i: int|
                    0 <= i < indices.len() && validity[i] ==> (#[trigger] indices[i])
                        < dictionary.len()
            },
            Array::List { validity, offsets, items } => {
                &&& items.wf()
                &&& offsets.len() == validity.len() + 1
                &&& monotone(offsets@)
                &&& offsets@.last() <= items.rows().len()
            },
            Array::Struct { validity, columns } => {
                &&& Self::columns_wf(columns@)
                &&& forall|j: int|
                    0 <= j < columns.len() ==> (#[trigger] Self::column_rows(columns@)[j]).len()
                        == validity.len()
            },
            Array::Mapping { validity, offsets, keys, entries } => {
                &&& keys.wf()
                &&& entries.wf()
                &&& offsets.len() == validity.len() + 1
                &&& monotone(offsets@)
                &&& offsets@.last() <= keys.rows().len()
                &&& offsets@.last() <= entries.rows().len()
            },
            Array::Union { types, slots, columns } => {
                &&& Self::columns_wf(columns@)
                &&& types.len() == slots.len()
                &&& forall|i: int|
                    0 <= i < types.len() ==> {
                        &&& (#[trigger] types[i]) < columns.len()
                        &&& slots[i] < Self::column_rows(columns@)[types[i] as int].len()
                    }
            },
        }
    }

    /// Every column has the shape of the field at its place.
    pub open spec fn columns_fit(columns: Seq<Array>, fields: Seq<Named>) -> bool
        decreases columns,
    {
        &&& columns.len() == fields.len()
        &&& columns.len() > 0 ==> Self::columns_fit(columns.drop_last(), fields.drop_last())
            && columns.last().fits(fields.last().shape)
    }

    /// The column has the buffers that a column of the shape has.
    pub open spec fn fits(&self, shape: Shape) -> bool
        decreases self,
    {
        match self {
            Array::Primitive { validity, values } => match shape {
                Shape::DateText(_) => values.shape() == Shape::Int(IntType::I64),
                _ => values.shape() == shape,
            },
            Array::Dictionary { validity, indices, dictionary } => shape is Dictionary,
            Array::List { validity, offsets, items } => match shape {
                Shape::List(item) => items.fits(*item),
                _ => false,
            },
            Array::Struct { validity, columns } => match shape {
                Shape::Record { keyed, fields } => Self::columns_fit(columns@, fields),
                _ => false,
            },
            Array::Mapping { validity, offsets, keys, entries } => match shape {
                Shape::Mapping(key, value) => keys.fits(*key) && entries.fits(*value),
                _ => false,
            },
            Array::Union { types, slots, columns } => match shape {
                Shape::Union(variants) => variants.len() > 0 && Self::columns_fit(
                    columns@,
                    variants,
                ),
                _ => false,
            },
        }
    }

    /// The number of rows.
    pub fn len(&self) -> (n: usize)
        ensures
            n == self.rows().len(),
    {
        match self {
            Array::Primitive { validity, values } => validity.len(),
            Array::Dictionary { validity, indices, dictionary } => validity.len(),
            Array::List { validity, offsets, items } => validity.len(),
            Array::Struct { validity, columns } => validity.len(),
            Array::Mapping { validity, offsets, keys, entries } => validity.len(),
            Array::Union { types, slots, columns } => types.len(),
        }
    }
}

/// What `column_rows`, `columns_wf` and `columns_fit` say of each column.
pub proof fn lemma_columns(columns: Seq<Array>)
    ensures
        Array::column_rows(columns).len() == columns.len(),
        forall|j: int|
            0 <= j < columns.len() ==> Array::column_rows(columns)[j] == (
            #[trigger] columns[j]).rows(),
        Array::columns_wf(columns) <==> forall|j: int|
            0 <= j < columns.len() ==> (#[trigger] columns[j]).wf(),
    decreases columns.len(),
{
    if columns.len() > 0 {
        lemma_columns(columns.drop_last());
        assert forall|j: int| 0 <= j < columns.len() implies Array::column_rows(columns)[j] == (
        #[trigger] columns[j]).rows() by {
            if j < columns.len() - 1 {
                assert(columns.drop_last()[j] == columns[j]);
            }
        }
        if Array::columns_wf(columns) {
            assert forall|j: int| 0 <= j < columns.len() implies (#[trigger] columns[j]).wf() by {
                if j < columns.len() - 1 {
                    assert(columns.drop_last()[j] == columns[j]);
                }
            }
        }
        if forall|j: int| 0 <= j < columns.len() ==> (#[trigger] columns[j]).wf() {
            assert forall|j: int| 0 <= j < columns.len() - 1 implies (
            #[trigger] columns.drop_last()[j]).wf() by {
                assert(columns.drop_last()[j] == columns[j]);
            }
        }
    }
}

/// What `columns_fit` says of each column.
pub proof fn lemma_columns_fit(columns: Seq<Array>, fields: Seq<Named>)
    ensures
        Array::columns_fit(columns, fields) <==> columns.len() == fields.len() && forall|j: int|
            0 <= j < columns.len() ==> (#[trigger] columns[j]).fits(fields[j].shape),
    decreases columns.len(),
{
    if columns.len() > 0 && columns.len() == fields.len() {
        lemma_columns_fit(columns.drop_last(), fields.drop_last());
        if Array::columns_fit(columns, fields) {
            assert forall|j: int| 0 <= j < columns.len() implies (#[trigger] columns[j]).fits(
                fields[j].shape,
            ) by {
                if j < columns.len() - 1 {
                    assert(columns.drop_last()[j] == columns[j]);
                    assert(fields.drop_last()[j] == fields[j]);
                }
            }
        }
        if forall|j: int| 0 <= j < columns.len() ==> (#[trigger] columns[j]).fits(fields[j].shape) {
            assert forall|j: int| 0 <= j < columns.len() - 1 implies (
            #[trigger] columns.drop_last()[j]).fits(fields.drop_last()[j].shape) by {
                assert(columns.drop_last()[j] == columns[j]);
                assert(fields.drop_last()[j] == fields[j]);
            }
        }
    }
}

} // verus!
