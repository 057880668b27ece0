//! Builders made from a schema.
use vstd::prelude::*;
use crate::array::Values;
use crate::builder::chrono::{DateTimeStrBuilder, NaiveDateTimeStrBuilder};
use crate::datetime::DateTimeForm;
use crate::builder::dictionary::DictionaryUtf8ArrayBuilder;
use crate::builder::dynamic::DynamicArrayBuilder;
use crate::builder::list::ListArrayBuilder;
use crate::builder::map::MapArrayBuilder;
use crate::builder::primitive::PrimitiveBuilder;
use crate::builder::structs::StructArrayBuilder;
use crate::builder::tuple::{FieldMeta, TupleStructBuilder};
use crate::builder::union::UnionArrayBuilder;
use crate::error::{Error, Result};
use crate::interpreter::{compile_serialization, lemma_scalar, Interpreter};
use crate::event::{FloatType, IntType};
use crate::model::{
    fields_height, lemma_fields_height, lemma_fields_height_bound, Named, Shape, Value,
};
use crate::schema::{named_fields, record_shape, GenericDataType, GenericField, Strategy};

verus! {

/// The builder is empty, between two values, and builds the shape.
pub open spec fn fresh(builder: DynamicArrayBuilder, shape: Shape) -> bool {
    &&& builder.wf()
    &&& builder.shape() == shape
    &&& builder.rows() == Seq::<Value>::empty()
    &&& builder.partial() is None
}

/// Whether a builder can be made for the field with containers nested at
/// most `budget` deep.
pub open spec fn buildable(field: &GenericField, budget: nat) -> bool {
    field.supported() && field.shape().height() <= budget
}

/// An empty builder of primitive values.
fn primitive(values: Values) -> (r: DynamicArrayBuilder)
    ensures
        fresh(r, values.shape()),
{
    let r = DynamicArrayBuilder::Primitive(PrimitiveBuilder::new(values));
    proof {
        r.lemma_unfold();
    }
    r
}

/// An empty builder of a `Date64` column that reads text in the given
/// form, or integers where there is none.
fn date(strategy: Option<Strategy>) -> (r: DynamicArrayBuilder)
    ensures
        fresh(
            r,
            match strategy {
                Some(Strategy::NaiveStrAsDate64) => Shape::DateText(DateTimeForm::Naive),
                Some(Strategy::UtcStrAsDate64) => Shape::DateText(DateTimeForm::Utc),
                _ => Shape::Int(IntType::I64),
            },
        ),
{
    let inner = PrimitiveBuilder::new(Values::Int(IntType::I64, Vec::new()));
    let r = match strategy {
        Some(Strategy::NaiveStrAsDate64) => DynamicArrayBuilder::NaiveDateTimeStr(
            NaiveDateTimeStrBuilder(inner),
        ),
        Some(Strategy::UtcStrAsDate64) => DynamicArrayBuilder::DateTimeStr(
            DateTimeStrBuilder(inner),
        ),
        _ => DynamicArrayBuilder::Primitive(inner),
    };
    proof {
        r.lemma_unfold();
    }
    r
}

/// An empty builder of a dictionary-encoded column.
fn dictionary() -> (r: DynamicArrayBuilder)
    ensures
        fresh(r, Shape::Dictionary),
{
    let r = DynamicArrayBuilder::Dictionary(DictionaryUtf8ArrayBuilder::new());
    proof {
        r.lemma_unfold();
    }
    r
}

/// The fields that the metadata and the builders stand for.
pub open spec fn named(metas: Seq<FieldMeta>, builders: Seq<DynamicArrayBuilder>) -> Seq<Named> {
    Seq::new(builders.len(), |j: int| Named { name: metas[j].name@, shape: builders[j].shape() })
}

/// Every builder is empty and between two values.
pub open spec fn all_fresh(builders: Seq<DynamicArrayBuilder>) -> bool {
    forall|j: int| 0 <= j < builders.len() ==> fresh(#[trigger] builders[j], builders[j].shape())
}

/// An empty builder of structs, or of tuples where `keyed` is unset.
fn record(keyed: bool, metas: Vec<FieldMeta>, builders: Vec<DynamicArrayBuilder>) -> (r:
    DynamicArrayBuilder)
    requires
        metas.len() == builders.len(),
        all_fresh(builders@),
        1 + fields_height(named(metas@, builders@)) <= usize::MAX,
    ensures
        fresh(r, Shape::Record { keyed, fields: named(metas@, builders@) }),
        keyed ==> r is Struct,
{
    if keyed {
        let b = StructArrayBuilder::new(metas, builders);
        proof {
            assert(b.fields() =~= named(metas@, builders@));
            assert(b.rows() =~= Seq::<Value>::empty());
            assert forall|j: int| 0 <= j < b.builders.len() implies (#[trigger] b.builders[j]).wf()
                && b.builders[j].rows().len() == 0 && b.builders[j].partial() is None by {
                assert(fresh(builders[j], builders[j].shape()));
            }
        }
        let r = DynamicArrayBuilder::Struct(b);
        proof {
            r.lemma_unfold();
        }
        r
    } else {
        let b = TupleStructBuilder::new(metas, builders);
        proof {
            assert(b.fields() =~= named(metas@, builders@));
            assert(b.rows() =~= Seq::<Value>::empty());
            assert forall|j: int| 0 <= j < b.builders.len() implies (#[trigger] b.builders[j]).wf()
                && b.builders[j].rows().len() == 0 && b.builders[j].partial() is None by {
                assert(fresh(builders[j], builders[j].shape()));
            }
        }
        let r = DynamicArrayBuilder::Tuple(b);
        proof {
            r.lemma_unfold();
        }
        r
    }
}

/// An empty builder of tagged unions.
fn union(metas: Vec<FieldMeta>, builders: Vec<DynamicArrayBuilder>) -> (r: DynamicArrayBuilder)
    requires
        metas.len() == builders.len(),
        builders.len() > 0,
        all_fresh(builders@),
        1 + fields_height(named(metas@, builders@)) <= usize::MAX,
    ensures
        fresh(r, Shape::Union(named(metas@, builders@))),
{
    let b = UnionArrayBuilder::new(metas, builders);
    proof {
        assert(b.fields() =~= named(metas@, builders@));
        assert(b.rows() =~= Seq::<Value>::empty());
        assert forall|j: int| 0 <= j < b.builders.len() implies (#[trigger] b.builders[j]).wf()
            && b.builders[j].partial() is None by {
            assert(fresh(builders[j], builders[j].shape()));
        }
    }
    let r = DynamicArrayBuilder::Union(b);
    proof {
        r.lemma_unfold();
    }
    r
}

/// An empty builder of lists.
fn list(item: DynamicArrayBuilder) -> (r: DynamicArrayBuilder)
    requires
        fresh(item, item.shape()),
        1 + item.shape().height() <= usize::MAX,
    ensures
        fresh(r, Shape::List(Box::new(item.shape()))),
{
    let b = ListArrayBuilder::new(item);
    assert(b.rows() =~= Seq::<Value>::empty());
    let r = DynamicArrayBuilder::List(b);
    proof {
        r.lemma_unfold();
    }
    r
}

/// An empty builder of maps.
fn mapping(key: DynamicArrayBuilder, value: DynamicArrayBuilder) -> (r: DynamicArrayBuilder)
    requires
        fresh(key, key.shape()),
        fresh(value, value.shape()),
        1 + key.shape().height() <= usize::MAX,
        1 + value.shape().height() <= usize::MAX,
    ensures
        fresh(r, Shape::Mapping(Box::new(key.shape()), Box::new(value.shape()))),
{
    let b = MapArrayBuilder::new(key, value);
    assert(b.rows() =~= Seq::<Value>::empty());
    let r = DynamicArrayBuilder::Mapping(b);
    proof {
        r.lemma_unfold();
    }
    r
}

/// Builders for the fields, with what a container keeps of each field.
fn build_children(fields: &Vec<GenericField>, budget: usize) -> (r: Result<
    (Vec<FieldMeta>, Vec<DynamicArrayBuilder>),
>)
    ensures
        match r {
            Ok((metas, builders)) => {
                &&& metas.len() == fields.len()
                &&& builders.len() == fields.len()
                &&& forall|j: int|
                    0 <= j < fields.len() ==> {
                        &&& buildable(#[trigger] &fields[j], budget as nat)
                        &&& fresh(builders[j], fields[j].shape())
                        &&& metas[j].name@ == fields[j].name@
                        &&& metas[j].nullable == fields[j].nullable
                    }
            },
            Err(e) => e == Error::UnsupportedType && exists|j: int|
                0 <= j < fields.len() && !buildable(#[trigger] &fields[j], budget as nat),
        },
    decreases fields, 0nat,
{
    let mut metas: Vec<FieldMeta> = Vec::new();
    let mut builders: Vec<DynamicArrayBuilder> = Vec::new();
    let mut k: usize = 0;
    while k < fields.len()
        invariant
            k <= fields.len(),
            metas.len() == k,
            builders.len() == k,
            forall|j: int|
                0 <= j < k ==> {
                    &&& buildable(#[trigger] &fields[j], budget as nat)
                    &&& fresh(builders[j], fields[j].shape())
                    &&& metas[j].name@ == fields[j].name@
                    &&& metas[j].nullable == fields[j].nullable
                },
        decreases fields.len() - k,
    {
        let child = &fields[k];
        match build_limited(child, budget) {
            Ok(builder) => {
                builders.push(builder);
                metas.push(FieldMeta { name: child.name.clone(), nullable: child.nullable });
            },
            Err(e) => {
                return Err(e);
            },
        }
        k = k + 1;
    }
    Ok((metas, builders))
}

/// What `build_limited` returns for the field and the budget.
pub open spec fn built(
    field: &GenericField,
    budget: usize,
    outcome: Result<DynamicArrayBuilder>,
) -> bool {
    match outcome {
        Ok(builder) => buildable(field, budget as nat) && fresh(builder, field.shape()),
        Err(e) => e == Error::UnsupportedType && !buildable(field, budget as nat),
    }
}

/// `build_limited`, for a struct, a tuple or a union.
fn build_record(field: &GenericField, budget: usize) -> (r: Result<DynamicArrayBuilder>)
    requires
        field.data_type == GenericDataType::Struct || field.data_type == GenericDataType::Union,
    ensures
        built(field, budget, r),
    decreases field, 0nat,
{
    if budget == 0 {
        return Err(Error::UnsupportedType);
    }
    let (metas, builders) = match build_children(&field.children, budget - 1) {
        Ok(parts) => parts,
        Err(e) => {
            proof {
                let j = choose|j: int|
                    0 <= j < field.children.len() && !buildable(
                        #[trigger] &field.children[j],
                        (budget - 1) as nat,
                    );
                lemma_fields_height(field.named_children(), j);
            }
            return Err(e);
        },
    };
    proof {
        assert forall|j: int| 0 <= j < builders.len() implies fresh(
            #[trigger] builders[j],
            builders[j].shape(),
        ) by {
            assert(buildable(&field.children[j], (budget - 1) as nat));
        }
        assert(named(metas@, builders@) =~= field.named_children());
        assert forall|j: int| 0 <= j < field.children.len() implies (
        #[trigger] field.named_children()[j]).shape.height() <= budget - 1 by {
            assert(buildable(&field.children[j], (budget - 1) as nat));
        }
        lemma_fields_height_bound(field.named_children(), (budget - 1) as nat);
        assert forall|j: int| 0 <= j < field.children.len() implies (
        #[trigger] field.children[j]).supported() by {
            assert(buildable(&field.children[j], (budget - 1) as nat));
        }
    }
    if matches!(field.data_type, GenericDataType::Union) {
        if builders.len() == 0 {
            return Err(Error::UnsupportedType);
        }
        Ok(union(metas, builders))
    } else {
        Ok(record(!matches!(field.strategy, Some(Strategy::TupleAsStruct)), metas, builders))
    }
}

/// `build_limited`, for a list.
fn build_list(field: &GenericField, budget: usize) -> (r: Result<DynamicArrayBuilder>)
    requires
        field.data_type == GenericDataType::List || field.data_type == GenericDataType::LargeList,
    ensures
        built(field, budget, r),
    decreases field, 0nat,
{
    if budget == 0 || field.children.len() != 1 {
        return Err(Error::UnsupportedType);
    }
    match build_limited(&field.children[0], budget - 1) {
        Ok(item) => Ok(list(item)),
        Err(e) => Err(e),
    }
}

/// `build_limited`, for a map.
fn build_map(field: &GenericField, budget: usize) -> (r: Result<DynamicArrayBuilder>)
    requires
        field.data_type == GenericDataType::Mapping,
    ensures
        built(field, budget, r),
    decreases field, 0nat,
{
    if budget == 0 || field.children.len() != 2 {
        return Err(Error::UnsupportedType);
    }
    let key = match build_limited(&field.children[0], budget - 1) {
        Ok(key) => key,
        Err(e) => {
            return Err(e);
        },
    };
    let value = match build_limited(&field.children[1], budget - 1) {
        Ok(value) => value,
        Err(e) => {
            return Err(e);
        },
    };
    Ok(mapping(key, value))
}

/// A builder for the field, unless containers nest deeper than `budget`.
pub fn build_limited(field: &GenericField, budget: usize) -> (r: Result<DynamicArrayBuilder>)
    ensures
        built(field, budget, r),
    decreases field, 1nat,
{
    match field.data_type {
        GenericDataType::Null => Ok(primitive(Values::Null)),
        GenericDataType::Bool => Ok(primitive(Values::Bool(Vec::new()))),
        GenericDataType::F16 => Ok(primitive(Values::Float(FloatType::F16, Vec::new()))),
        GenericDataType::F32 => Ok(primitive(Values::Float(FloatType::F32, Vec::new()))),
        GenericDataType::F64 => Ok(primitive(Values::Float(FloatType::F64, Vec::new()))),
        GenericDataType::Utf8 | GenericDataType::LargeUtf8 => Ok(
            primitive(Values::Utf8(Vec::new())),
        ),
        GenericDataType::Date64 => Ok(date(field.strategy)),
        GenericDataType::Dictionary => {
            if field.children.len() == 2 && field.children[0].data_type.int_type().is_some() && (
            field.children[1].data_type == GenericDataType::Utf8 || field.children[1].data_type
                == GenericDataType::LargeUtf8) {
                Ok(dictionary())
            } else {
                Err(Error::UnsupportedType)
            }
        },
        GenericDataType::Struct | GenericDataType::Union => build_record(field, budget),
        GenericDataType::List | GenericDataType::LargeList => build_list(field, budget),
        GenericDataType::Mapping => build_map(field, budget),
        _ => match field.data_type.int_type() {
            Some(ty) => Ok(primitive(Values::Int(ty, Vec::new()))),
            None => Err(Error::UnsupportedType),
        },
    }
}

/// A builder for a column of the field.
///
/// Fails with `UnsupportedType` where the field, or a field below it, has
/// no builder.
pub fn build_array_builder(field: &GenericField) -> (r: Result<DynamicArrayBuilder>)
    ensures
        match r {
            Ok(builder) => buildable(field, usize::MAX as nat) && fresh(builder, field.shape()),
            Err(e) => e == Error::UnsupportedType && !buildable(field, usize::MAX as nat),
        },
{
    build_limited(field, usize::MAX)
}

/// Whether a builder can be made for records of the fields.
pub open spec fn record_buildable(fields: Seq<GenericField>) -> bool {
    &&& forall|j: int| 0 <= j < fields.len() ==> (#[trigger] fields[j]).supported()
    &&& record_shape(fields).height() <= usize::MAX
}

/// A builder for a column of records whose fields are the given fields.
///
/// Fails with `UnsupportedType` where a field has no builder.
pub fn build_struct_array_builder(fields: &Vec<GenericField>) -> (r: Result<DynamicArrayBuilder>)
    ensures
        match r {
            Ok(builder) => record_buildable(fields@) && fresh(builder, record_shape(fields@))
                && builder is Struct,
            Err(e) => e == Error::UnsupportedType && !record_buildable(fields@),
        },
{
    let (metas, builders) = match build_children(fields, usize::MAX - 1) {
        Ok(parts) => parts,
        Err(e) => {
            proof {
                let j = choose|j: int|
                    0 <= j < fields.len() && !buildable(
                        #[trigger] &fields[j],
                        (usize::MAX - 1) as nat,
                    );
                lemma_fields_height(named_fields(fields@), j);
            }
            return Err(e);
        },
    };
    proof {
        assert forall|j: int| 0 <= j < builders.len() implies fresh(
            #[trigger] builders[j],
            builders[j].shape(),
        ) by {
            assert(buildable(&fields[j], (usize::MAX - 1) as nat));
        }
        assert(named(metas@, builders@) =~= named_fields(fields@));
        assert forall|j: int| 0 <= j < fields.len() implies (#[trigger] named_fields(
            fields@,
        )[j]).shape.height() <= usize::MAX - 1 by {
            assert(buildable(&fields[j], (usize::MAX - 1) as nat));
        }
        lemma_fields_height_bound(named_fields(fields@), (usize::MAX - 1) as nat);
        assert forall|j: int| 0 <= j < fields.len() implies (#[trigger] fields[j]).supported() by {
            assert(buildable(&fields[j], (usize::MAX - 1) as nat));
        }
    }
    Ok(record(true, metas, builders))
}

/// A builder for a column of records that runs a program where the
/// compiler has one for the fields, and follows the schema node by node
/// where it has none.
///
/// Fails with `UnsupportedType` where a field has no builder.
pub fn build_compiled_builder(fields: &Vec<GenericField>) -> (r: Result<DynamicArrayBuilder>)
    ensures
        match r {
            Ok(builder) => record_buildable(fields@) && fresh(builder, record_shape(fields@)),
            Err(e) => e == Error::UnsupportedType && !record_buildable(fields@),
        },
{
    match compile_serialization(fields) {
        Some(program) => {
            let builder = DynamicArrayBuilder::Compiled(Interpreter::new(program));
            proof {
                builder.lemma_unfold();
                assert forall|j: int| 0 <= j < fields.len() implies (#[trigger] named_fields(
                    fields@,
                )[j]).shape.height() <= 0 by {
                    lemma_scalar(fields[j].shape(), crate::event::EventView::Null);
                }
                lemma_fields_height_bound(named_fields(fields@), 0);
            }
            Ok(builder)
        },
        None => build_struct_array_builder(fields),
    }
}

} // verus!
