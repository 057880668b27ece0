//! The schema of a column: its type, its children and its encoding.
use vstd::prelude::*;
use crate::datetime::DateTimeForm;
use crate::event::{FloatType, IntType};
use crate::model::{Named, Shape};

verus! {

/// The data types of a column.
#[derive(Clone, Copy, Debug, PartialEq, Eq, Structural)]
pub enum GenericDataType {
    Null,
    Bool,
    I8,
    I16,
    I32,
    I64,
    U8,
    U16,
    U32,
    U64,
    F16,
    F32,
    F64,
    Utf8,
    LargeUtf8,
    /// Milliseconds since the epoch.
    Date64,
    Struct,
    List,
    LargeList,
    Union,
    /// A map: its children are the field of the keys and the field of the
    /// values.
    Mapping,
    /// A dictionary: its children are the field of the keys and the field
    /// of the values.
    Dictionary,
}

/// A hint on how a column encodes its values.
#[derive(Clone, Copy, Debug, PartialEq, Eq, Structural)]
pub enum Strategy {
    /// A `Date64` column whose values are given as text in UTC.
    UtcStrAsDate64,
    /// A `Date64` column whose values are given as text without a zone.
    NaiveStrAsDate64,
    /// A struct that stands for a tuple: its fields carry no names in the
    /// event stream.
    TupleAsStruct,
}

impl GenericDataType {
    /// The integer width of the type, if it is an integer type.
    pub open spec fn spec_int_type(self) -> Option<IntType> {
        match self {
            GenericDataType::I8 => Some(IntType::I8),
            GenericDataType::I16 => Some(IntType::I16),
            GenericDataType::I32 => Some(IntType::I32),
            GenericDataType::I64 => Some(IntType::I64),
            GenericDataType::U8 => Some(IntType::U8),
            GenericDataType::U16 => Some(IntType::U16),
            GenericDataType::U32 => Some(IntType::U32),
            GenericDataType::U64 => Some(IntType::U64),
            _ => None,
        }
    }

    /// The integer width of the type, if it is an integer type.
    #[verifier::when_used_as_spec(spec_int_type)]
    pub fn int_type(self) -> (r: Option<IntType>)
        ensures
            r == self.spec_int_type(),
    {
        match self {
            GenericDataType::I8 => Some(IntType::I8),
            GenericDataType::I16 => Some(IntType::I16),
            GenericDataType::I32 => Some(IntType::I32),
            GenericDataType::I64 => Some(IntType::I64),
            GenericDataType::U8 => Some(IntType::U8),
            GenericDataType::U16 => Some(IntType::U16),
            GenericDataType::U32 => Some(IntType::U32),
            GenericDataType::U64 => Some(IntType::U64),
            _ => None,
        }
    }

    /// Whether the type is one of the two string types.
    pub open spec fn is_text(self) -> bool {
        self == GenericDataType::Utf8 || self == GenericDataType::LargeUtf8
    }
}

/// One node of a schema.
#[derive(Debug, PartialEq, Eq)]
pub struct GenericField {
    pub name: String,
    pub data_type: GenericDataType,
    pub nullable: bool,
    pub children: Vec<GenericField>,
    pub strategy: Option<Strategy>,
}

impl GenericField {
    /// The children as the fields of a record or the variants of a union.
    pub open spec fn named_children(&self) -> Seq<Named>
        decreases self, 0nat,
    {
        Seq::new(
            self.children.len() as nat,
            |j: int|
                Named {
                    name: self.children[j].name@,
                    shape: if 0 <= j < self.children.len() {
                        self.children[j].shape()
                    } else {
                        Shape::Null
                    },
                },
        )
    }

    /// The grammar of the column. The nullable flag takes no part in it: an
    /// absent value is read wherever it arrives.
    pub open spec fn shape(&self) -> Shape
        decreases self, 1nat,
    {
        match self.data_type {
            GenericDataType::Null => Shape::Null,
            GenericDataType::Bool => Shape::Bool,
            GenericDataType::F16 => Shape::Float(FloatType::F16),
            GenericDataType::F32 => Shape::Float(FloatType::F32),
            GenericDataType::F64 => Shape::Float(FloatType::F64),
            GenericDataType::Utf8 | GenericDataType::LargeUtf8 => Shape::Utf8,
            GenericDataType::Date64 => match self.strategy {
                Some(Strategy::NaiveStrAsDate64) => Shape::DateText(DateTimeForm::Naive),
                Some(Strategy::UtcStrAsDate64) => Shape::DateText(DateTimeForm::Utc),
                _ => Shape::Int(IntType::I64),
            },
            GenericDataType::Struct => Shape::Record {
                keyed: self.strategy != Some(Strategy::TupleAsStruct),
                fields: self.named_children(),
            },
            GenericDataType::List | GenericDataType::LargeList => Shape::List(
                Box::new(
                    if self.children.len() > 0 {
                        self.children[0].shape()
                    } else {
                        Shape::Null
                    },
                ),
            ),
            GenericDataType::Union => Shape::Union(self.named_children()),
            GenericDataType::Mapping => Shape::Mapping(
                Box::new(
                    if self.children.len() > 0 {
                        self.children[0].shape()
                    } else {
                        Shape::Null
                    },
                ),
                Box::new(
                    if self.children.len() > 1 {
                        self.children[1].shape()
                    } else {
                        Shape::Null
                    },
                ),
            ),
            GenericDataType::Dictionary => Shape::Dictionary,
            _ => match self.data_type.spec_int_type() {
                Some(ty) => Shape::Int(ty),
                None => Shape::Null,
            },
        }
    }

    /// Whether a builder exists for the field: a list has one child, a map
    /// a key and a value, a union at least one variant, a dictionary
    /// integer keys and string values, and every child of a container has
    /// a builder.
    pub open spec fn supported(&self) -> bool
        decreases self,
    {
        match self.data_type {
            GenericDataType::Struct => forall|j: int|
                0 <= j < self.children.len() ==> (#[trigger] self.children[j]).supported(),
            GenericDataType::List | GenericDataType::LargeList => self.children.len() == 1
                && self.children[0].supported(),
            GenericDataType::Union => self.children.len() > 0 && forall|j: int|
                0 <= j < self.children.len() ==> (#[trigger] self.children[j]).supported(),
            GenericDataType::Mapping => self.children.len() == 2 && self.children[0].supported()
                && self.children[1].supported(),
            GenericDataType::Dictionary => self.children.len() == 2
                && self.children[0].data_type.spec_int_type() is Some
                && self.children[1].data_type.is_text(),
            _ => true,
        }
    }

    /// A field without children and without a strategy.
    pub fn new(name: &str, data_type: GenericDataType, nullable: bool) -> (r: GenericField)
        ensures
            r.name@ == name@,
            r.data_type == data_type,
            r.nullable == nullable,
            r.children@ == Seq::<GenericField>::empty(),
            r.strategy is None,
    {
        GenericField {
            name: String::from_str(name),
            data_type,
            nullable,
            children: Vec::new(),
            strategy: None,
        }
    }

    /// The field with one more child, after the children it has.
    pub fn with_child(self, child: GenericField) -> (r: GenericField)
        ensures
            r.name == self.name,
            r.data_type == self.data_type,
            r.nullable == self.nullable,
            r.children@ == self.children@.push(child),
            r.strategy == self.strategy,
    {
        let mut r = self;
        r.children.push(child);
        r
    }

    /// The field with the given strategy.
    pub fn with_strategy(self, strategy: Strategy) -> (r: GenericField)
        ensures
            r.name == self.name,
            r.data_type == self.data_type,
            r.nullable == self.nullable,
            r.children == self.children,
            r.strategy == Some(strategy),
    {
        let mut r = self;
        r.strategy = Some(strategy);
        r
    }

    /// Whether a builder exists for the field.
    pub fn is_supported(&self) -> (r: bool)
        ensures
            r == self.supported(),
        decreases self, 1nat,
    {
        match self.data_type {
            GenericDataType::Struct => self.children_supported(),
            GenericDataType::List | GenericDataType::LargeList => self.children.len() == 1
                && self.children[0].is_supported(),
            GenericDataType::Union => self.children.len() > 0 && self.children_supported(),
            GenericDataType::Mapping => self.children.len() == 2
                && self.children[0].is_supported() && self.children[1].is_supported(),
            GenericDataType::Dictionary => self.children.len() == 2
                && self.children[0].data_type.int_type().is_some() && (
            self.children[1].data_type == GenericDataType::Utf8 || self.children[1].data_type
                == GenericDataType::LargeUtf8),
            _ => true,
        }
    }

    /// Whether a builder exists for every child.
    fn children_supported(&self) -> (r: bool)
        ensures
            r == forall|j: int|
                0 <= j < self.children.len() ==> (#[trigger] self.children[j]).supported(),
        decreases self, 0nat,
    {
        let mut k: usize = 0;
        while k < self.children.len()
            invariant
                k <= self.children.len(),
                forall|j: int| 0 <= j < k ==> (#[trigger] self.children[j]).supported(),
            decreases self.children.len() - k,
        {
            if !self.children[k].is_supported() {
                return false;
            }
            k = k + 1;
        }
        true
    }
}

/// The fields as the fields of a record.
pub open spec fn named_fields(fields: Seq<GenericField>) -> Seq<Named> {
    Seq::new(fields.len(), |j: int| Named { name: fields[j].name@, shape: fields[j].shape() })
}

/// The shape of the records whose fields are the given fields.
pub open spec fn record_shape(fields: Seq<GenericField>) -> Shape {
    Shape::Record { keyed: true, fields: named_fields(fields) }
}

/// The children of a field, as the fields of a record, are its children.
pub proof fn lemma_named_children(field: &GenericField)
    ensures
        field.named_children() == named_fields(field.children@),
{
    assert(field.named_children() =~= named_fields(field.children@));
}

/// The key under which the metadata of a field holds its strategy.
pub open spec fn strategy_key() -> Seq<char> {
    "SERDE_ARROW:strategy"@
}

/// The name of a strategy, as it stands in the metadata of a field.
pub open spec fn strategy_text(strategy: Strategy) -> Seq<char> {
    match strategy {
        Strategy::UtcStrAsDate64 => "UtcStrAsDate64"@,
        Strategy::NaiveStrAsDate64 => "NaiveStrAsDate64"@,
        Strategy::TupleAsStruct => "TupleAsStruct"@,
    }
}

/// The strategy of the name, if the name is that of a strategy.
pub open spec fn strategy_named(name: Seq<char>) -> Option<Strategy> {
    if name == "UtcStrAsDate64"@ {
        Some(Strategy::UtcStrAsDate64)
    } else if name == "NaiveStrAsDate64"@ {
        Some(Strategy::NaiveStrAsDate64)
    } else if name == "TupleAsStruct"@ {
        Some(Strategy::TupleAsStruct)
    } else {
        None
    }
}

/// The strategy that the metadata of a field gives: that of the first
/// entry under the strategy key, if its value names one.
pub open spec fn strategy_of(metadata: Seq<(String, String)>) -> Option<Strategy> {
    match first_strategy_entry(metadata, metadata.len()) {
        Some(i) => strategy_named(metadata[i].1@),
        None => None,
    }
}

/// The index of the first of the first `count` entries that stands under
/// the strategy key.
pub open spec fn first_strategy_entry(metadata: Seq<(String, String)>, count: nat) -> Option<int>
    decreases count,
{
    if count == 0 {
        None
    } else {
        match first_strategy_entry(metadata, (count - 1) as nat) {
            Some(i) => Some(i),
            None => if metadata[count - 1].0@ == strategy_key() {
                Some(count - 1)
            } else {
                None
            },
        }
    }
}

impl Strategy {
    /// The strategy of the name.
    pub fn from_name(name: &String) -> (r: Option<Strategy>)
        ensures
            r == strategy_named(name@),
    {
        if *name == String::from_str("UtcStrAsDate64") {
            Some(Strategy::UtcStrAsDate64)
        } else if *name == String::from_str("NaiveStrAsDate64") {
            Some(Strategy::NaiveStrAsDate64)
        } else if *name == String::from_str("TupleAsStruct") {
            Some(Strategy::TupleAsStruct)
        } else {
            None
        }
    }

    /// The name of the strategy, as it stands in the metadata of a field.
    pub fn name(self) -> (r: &'static str)
        ensures
            r@ == strategy_text(self),
            strategy_named(r@) == Some(self),
    {
        proof {
            reveal_strlit("UtcStrAsDate64");
            reveal_strlit("NaiveStrAsDate64");
            reveal_strlit("TupleAsStruct");
            assert("UtcStrAsDate64"@[0] == 'U');
            assert("NaiveStrAsDate64"@[0] == 'N');
            assert("TupleAsStruct"@[0] == 'T');
        }
        match self {
            Strategy::UtcStrAsDate64 => "UtcStrAsDate64",
            Strategy::NaiveStrAsDate64 => "NaiveStrAsDate64",
            Strategy::TupleAsStruct => "TupleAsStruct",
        }
    }

    /// The metadata that gives the strategy: one entry under the key
    /// `SERDE_ARROW:strategy`, or none where there is no strategy.
    pub fn to_metadata(strategy: Option<Strategy>) -> (r: Vec<(String, String)>)
        ensures
            strategy_of(r@) == strategy,
            r.len() == if strategy is Some {
                1nat
            } else {
                0nat
            },
    {
        let mut r: Vec<(String, String)> = Vec::new();
        match strategy {
            Some(strategy) => {
                r.push(
                    (String::from_str("SERDE_ARROW:strategy"), String::from_str(strategy.name())),
                );
                proof {
                    reveal_with_fuel(first_strategy_entry, 2);
                }
            },
            None => {},
        }
        r
    }

    /// The strategy that the metadata of a field gives: that of the first
    /// entry under the key `SERDE_ARROW:strategy`, if its value names one.
    pub fn from_metadata(metadata: &Vec<(String, String)>) -> (r: Option<Strategy>)
        ensures
            r == strategy_of(metadata@),
    {
        let key = String::from_str("SERDE_ARROW:strategy");
        let mut k: usize = 0;
        while k < metadata.len()
            invariant
                k <= metadata.len(),
                key@ == strategy_key(),
                first_strategy_entry(metadata@, k as nat) is None,
            decreases metadata.len() - k,
        {
            if metadata[k].0 == key {
                let r = Strategy::from_name(&metadata[k].1);
                proof {
                    lemma_strategy_found(metadata@, (k + 1) as nat, metadata.len() as nat);
                }
                return r;
            }
            k = k + 1;
        }
        None
    }
}

/// Once an entry stands under the strategy key, further entries change
/// nothing.
pub proof fn lemma_strategy_found(metadata: Seq<(String, String)>, count: nat, more: nat)
    requires
        count <= more,
        first_strategy_entry(metadata, count) is Some,
    ensures
        first_strategy_entry(metadata, more) == first_strategy_entry(metadata, count),
    decreases more,
{
    if count < more {
        lemma_strategy_found(metadata, count, (more - 1) as nat);
    }
}

} // verus!
