//! Schemas inferred from samples.
//!
//! Every sample has a type of its own, which [`sample_type`] reads off its
//! events. The type of a column is the merge of the types of its samples;
//! [`merged`] says what two types merge to, and when they do not merge.
use vstd::prelude::*;
use crate::error::{Error, Result};
use crate::event::{views, Container, Event, EventView, IntType};
use crate::schema::{GenericDataType, GenericField, Strategy};

verus! {

/// How a schema is inferred.
#[derive(Clone, Copy, Debug, PartialEq, Eq, Structural)]
pub struct TracingOptions {
    /// Whether a column of which only absent values were seen becomes a
    /// column of the null type. Where unset, such a column fails the
    /// inference.
    pub allow_null_fields: bool,
    /// Whether numbers of different types merge, to the narrowest type
    /// that holds both. Where unset, they fail the inference.
    pub coerce_numbers: bool,
    /// Whether structs with different fields merge: a field that one of
    /// them lacks becomes nullable. Where unset, they fail the inference.
    /// A builder of the merged schema still reads every field of every
    /// record, in declared order.
    pub merge_unknown_struct_fields: bool,
}

impl TracingOptions {
    /// No null columns, no merged numbers, no merged structs.
    pub fn new() -> (r: TracingOptions)
        ensures
            !r.allow_null_fields,
            !r.coerce_numbers,
            !r.merge_unknown_struct_fields,
    {
        TracingOptions {
            allow_null_fields: false,
            coerce_numbers: false,
            merge_unknown_struct_fields: false,
        }
    }

    /// The options with `allow_null_fields` as given.
    pub fn allow_null_fields(self, value: bool) -> (r: TracingOptions)
        ensures
            r == (TracingOptions { allow_null_fields: value, ..self }),
    {
        TracingOptions { allow_null_fields: value, ..self }
    }

    /// The options with `coerce_numbers` as given.
    pub fn coerce_numbers(self, value: bool) -> (r: TracingOptions)
        ensures
            r == (TracingOptions { coerce_numbers: value, ..self }),
    {
        TracingOptions { coerce_numbers: value, ..self }
    }

    /// The options with `merge_unknown_struct_fields` as given.
    pub fn merge_unknown_struct_fields(self, value: bool) -> (r: TracingOptions)
        ensures
            r == (TracingOptions { merge_unknown_struct_fields: value, ..self }),
    {
        TracingOptions { merge_unknown_struct_fields: value, ..self }
    }
}

/// The number of bits of an integer or floating point type, and zero for
/// every other type.
pub open spec fn spec_bits(data_type: GenericDataType) -> nat {
    match data_type {
        GenericDataType::I8 | GenericDataType::U8 => 8,
        GenericDataType::I16 | GenericDataType::U16 | GenericDataType::F16 => 16,
        GenericDataType::I32 | GenericDataType::U32 | GenericDataType::F32 => 32,
        GenericDataType::I64 | GenericDataType::U64 | GenericDataType::F64 => 64,
        _ => 0,
    }
}

/// Whether the type is a signed integer type.
pub open spec fn spec_signed(data_type: GenericDataType) -> bool {
    data_type == GenericDataType::I8 || data_type == GenericDataType::I16 || data_type
        == GenericDataType::I32 || data_type == GenericDataType::I64
}

/// Whether the type is an unsigned integer type.
pub open spec fn spec_unsigned(data_type: GenericDataType) -> bool {
    data_type == GenericDataType::U8 || data_type == GenericDataType::U16 || data_type
        == GenericDataType::U32 || data_type == GenericDataType::U64
}

/// Whether the type is a floating point type.
pub open spec fn spec_float(data_type: GenericDataType) -> bool {
    data_type == GenericDataType::F16 || data_type == GenericDataType::F32 || data_type
        == GenericDataType::F64
}

/// The signed integer type of the given number of bits.
pub open spec fn spec_signed_of(bits: nat) -> GenericDataType {
    if bits <= 8 {
        GenericDataType::I8
    } else if bits <= 16 {
        GenericDataType::I16
    } else if bits <= 32 {
        GenericDataType::I32
    } else {
        GenericDataType::I64
    }
}

/// The unsigned integer type of the given number of bits.
pub open spec fn spec_unsigned_of(bits: nat) -> GenericDataType {
    if bits <= 8 {
        GenericDataType::U8
    } else if bits <= 16 {
        GenericDataType::U16
    } else if bits <= 32 {
        GenericDataType::U32
    } else {
        GenericDataType::U64
    }
}

/// The narrowest numeric type that holds the values of both types, if
/// there is one.
///
/// Two unsigned types widen to the wider of them, and so do two signed
/// types. An unsigned and a signed type widen to the signed type that
/// covers the range of the unsigned one: the wider of the signed type and
/// twice the unsigned type; 64 unsigned bits have no such type. Two
/// floating point types widen to the wider of them, and an integer and a
/// floating point type to 64-bit floating point.
pub open spec fn widened(a: GenericDataType, b: GenericDataType) -> Option<GenericDataType> {
    let wider = if spec_bits(a) >= spec_bits(b) {
        spec_bits(a)
    } else {
        spec_bits(b)
    };
    if a == b {
        Some(a)
    } else if spec_unsigned(a) && spec_unsigned(b) {
        Some(spec_unsigned_of(wider))
    } else if spec_signed(a) && spec_signed(b) {
        Some(spec_signed_of(wider))
    } else if spec_unsigned(a) && spec_signed(b) {
        if spec_bits(a) >= 64 {
            None
        } else if spec_bits(b) > spec_bits(a) {
            Some(b)
        } else {
            Some(spec_signed_of(2 * spec_bits(a)))
        }
    } else if spec_signed(a) && spec_unsigned(b) {
        if spec_bits(b) >= 64 {
            None
        } else if spec_bits(a) > spec_bits(b) {
            Some(a)
        } else {
            Some(spec_signed_of(2 * spec_bits(b)))
        }
    } else if spec_float(a) && spec_float(b) {
        Some(if wider <= 16 {
            GenericDataType::F16
        } else if wider <= 32 {
            GenericDataType::F32
        } else {
            GenericDataType::F64
        })
    } else if (spec_float(a) && (spec_signed(b) || spec_unsigned(b))) || (spec_float(b) && (
    spec_signed(a) || spec_unsigned(a))) {
        Some(GenericDataType::F64)
    } else {
        None
    }
}

/// The number of bits of an integer or floating point type.
pub fn bits(data_type: GenericDataType) -> (r: u8)
    ensures
        r == spec_bits(data_type),
{
    match data_type {
        GenericDataType::I8 | GenericDataType::U8 => 8,
        GenericDataType::I16 | GenericDataType::U16 | GenericDataType::F16 => 16,
        GenericDataType::I32 | GenericDataType::U32 | GenericDataType::F32 => 32,
        GenericDataType::I64 | GenericDataType::U64 | GenericDataType::F64 => 64,
        _ => 0,
    }
}

/// The signed integer type of the given number of bits.
fn signed_of(bits: u8) -> (r: GenericDataType)
    ensures
        r == spec_signed_of(bits as nat),
{
    if bits <= 8 {
        GenericDataType::I8
    } else if bits <= 16 {
        GenericDataType::I16
    } else if bits <= 32 {
        GenericDataType::I32
    } else {
        GenericDataType::I64
    }
}

/// Executable form of [`widened`].
pub fn widen(a: GenericDataType, b: GenericDataType) -> (r: Option<GenericDataType>)
    ensures
        r == widened(a, b),
{
    let signed_a = matches!(
        a,
        GenericDataType::I8 | GenericDataType::I16 | GenericDataType::I32 | GenericDataType::I64
    );
    let signed_b = matches!(
        b,
        GenericDataType::I8 | GenericDataType::I16 | GenericDataType::I32 | GenericDataType::I64
    );
    let unsigned_a = matches!(
        a,
        GenericDataType::U8 | GenericDataType::U16 | GenericDataType::U32 | GenericDataType::U64
    );
    let unsigned_b = matches!(
        b,
        GenericDataType::U8 | GenericDataType::U16 | GenericDataType::U32 | GenericDataType::U64
    );
    let float_a = matches!(a, GenericDataType::F16 | GenericDataType::F32 | GenericDataType::F64);
    let float_b = matches!(b, GenericDataType::F16 | GenericDataType::F32 | GenericDataType::F64);
    let bits_a = bits(a);
    let bits_b = bits(b);
    let wider = if bits_a >= bits_b {
        bits_a
    } else {
        bits_b
    };
    if a == b {
        Some(a)
    } else if unsigned_a && unsigned_b {
        Some(
            if wider <= 8 {
                GenericDataType::U8
            } else if wider <= 16 {
                GenericDataType::U16
            } else if wider <= 32 {
                GenericDataType::U32
            } else {
                GenericDataType::U64
            },
        )
    } else if signed_a && signed_b {
        Some(signed_of(wider))
    } else if unsigned_a && signed_b {
        if bits_a >= 64 {
            None
        } else if bits_b > bits_a {
            Some(b)
        } else {
            Some(signed_of(2 * bits_a))
        }
    } else if signed_a && unsigned_b {
        if bits_b >= 64 {
            None
        } else if bits_a > bits_b {
            Some(a)
        } else {
            Some(signed_of(2 * bits_b))
        }
    } else if float_a && float_b {
        Some(
            if wider <= 16 {
                GenericDataType::F16
            } else if wider <= 32 {
                GenericDataType::F32
            } else {
                GenericDataType::F64
            },
        )
    } else if (float_a && (signed_b || unsigned_b)) || (float_b && (signed_a || unsigned_a)) {
        Some(GenericDataType::F64)
    } else {
        None
    }
}

/// The kinds of type that a sample can have.
#[derive(Clone, Copy, Debug, PartialEq, Eq, Structural)]
pub enum NodeKind {
    /// Only absent or defaulted values were seen.
    Unknown,
    Primitive(GenericDataType),
    /// One child: the items.
    List,
    /// One child per field, each with its name.
    Struct,
    /// One child per element.
    Tuple,
    /// Two children: the keys and the values.
    Mapping,
    /// One child per variant index; a variant that was not seen is blank.
    Union,
}

/// The type of the samples of one column, as far as the samples tell.
#[derive(Debug, PartialEq, Eq)]
pub struct Node {
    pub name: String,
    pub nullable: bool,
    pub kind: NodeKind,
    pub children: Vec<Node>,
}

/// What a [`Node`] says.
pub struct Traced {
    pub name: Seq<char>,
    pub nullable: bool,
    pub kind: NodeKind,
    pub children: Seq<Traced>,
}

/// The type of no sample at all: it merges with every type to that type.
pub open spec fn blank() -> Traced {
    Traced { name: Seq::empty(), nullable: false, kind: NodeKind::Unknown, children: Seq::empty() }
}

/// The element at the index, and the blank type beyond the end.
pub open spec fn at(nodes: Seq<Traced>, index: int) -> Traced {
    if 0 <= index < nodes.len() {
        nodes[index]
    } else {
        blank()
    }
}

/// The type of the samples of both types, or the failure to infer one.
///
/// The blank type merges with every type to that type. Else the names
/// agree, an absent value on either side makes the type nullable, and an
/// unknown type merges with every type to that type. Two equal primitive
/// types merge to that type, and two numeric types to the type they widen
/// to, where numbers are coerced. Two lists, structs, tuples or maps have
/// equally many children and merge child by child; two unions merge
/// variant by variant, and a variant that one of them lacks is taken from
/// the other. Where structs with different fields merge, the fields of the
/// first merge with the fields of the same name of the second, the fields
/// that the other struct lacks become nullable, and the fields that only
/// the second has follow those of the first. Every other pair fails with
/// `SchemaInferenceFailure`.
pub open spec fn merged(options: TracingOptions, a: Traced, b: Traced) -> core::result::Result<
    Traced,
    Error,
>
    decreases a, 0nat,
{
    if b == blank() {
        Ok(a)
    } else if a == blank() {
        Ok(b)
    } else if a.name != b.name {
        Err(Error::SchemaInferenceFailure)
    } else if a.kind is Unknown {
        Ok(Traced { nullable: a.nullable || b.nullable, ..b })
    } else if b.kind is Unknown {
        Ok(Traced { nullable: a.nullable || b.nullable, ..a })
    } else {
        match (a.kind, b.kind) {
            (NodeKind::Primitive(x), NodeKind::Primitive(y)) => {
                let data_type = if x == y {
                    Some(x)
                } else if options.coerce_numbers {
                    widened(x, y)
                } else {
                    None
                };
                match data_type {
                    Some(t) => Ok(
                        Traced {
                            nullable: a.nullable || b.nullable,
                            kind: NodeKind::Primitive(t),
                            ..a
                        },
                    ),
                    None => Err(Error::SchemaInferenceFailure),
                }
            },
            (NodeKind::Union, NodeKind::Union) => {
                let count = if a.children.len() >= b.children.len() {
                    a.children.len()
                } else {
                    b.children.len()
                };
                match merged_children(options, a.children, b.children, count) {
                    Ok(children) => Ok(
                        Traced { nullable: a.nullable || b.nullable, children, ..a },
                    ),
                    Err(e) => Err(e),
                }
            },
            (NodeKind::Struct, NodeKind::Struct) if options.merge_unknown_struct_fields => {
                match merged_known(options, a.children, b.children, a.children.len()) {
                    Ok(known) => Ok(
                        Traced {
                            nullable: a.nullable || b.nullable,
                            children: known + unknown_fields(
                                a.children,
                                b.children,
                                b.children.len(),
                            ),
                            ..a
                        },
                    ),
                    Err(e) => Err(e),
                }
            },
            (x, y) => if x == y && !(x is Primitive) && a.children.len() == b.children.len() {
                match merged_children(options, a.children, b.children, a.children.len()) {
                    Ok(children) => Ok(
                        Traced { nullable: a.nullable || b.nullable, children, ..a },
                    ),
                    Err(e) => Err(e),
                }
            } else {
                Err(Error::SchemaInferenceFailure)
            },
        }
    }
}

/// The index of the first of the first `count` types that has the name.
pub open spec fn position_of(nodes: Seq<Traced>, name: Seq<char>, count: nat) -> Option<int>
    decreases count,
{
    if count == 0 {
        None
    } else {
        match position_of(nodes, name, (count - 1) as nat) {
            Some(i) => Some(i),
            None => if nodes[count - 1].name == name {
                Some(count - 1)
            } else {
                None
            },
        }
    }
}

/// The type, nullable.
pub open spec fn optional(t: Traced) -> Traced {
    Traced { nullable: true, ..t }
}

/// The first `count` fields of a struct, each merged with the field of the
/// same name of another struct, and nullable where the other has none.
pub open spec fn merged_known(
    options: TracingOptions,
    xs: Seq<Traced>,
    ys: Seq<Traced>,
    count: nat,
) -> core::result::Result<Seq<Traced>, Error>
    decreases xs, count,
{
    if count == 0 {
        Ok(Seq::empty())
    } else {
        match merged_known(options, xs, ys, (count - 1) as nat) {
            Err(e) => Err(e),
            Ok(init) => {
                let last = if count - 1 < xs.len() {
                    match position_of(ys, xs[count - 1].name, ys.len()) {
                        Some(k) => merged(options, xs[count - 1], ys[k]),
                        None => Ok(optional(xs[count - 1])),
                    }
                } else {
                    Ok(blank())
                };
                match last {
                    Ok(m) => Ok(init.push(m)),
                    Err(e) => Err(e),
                }
            },
        }
    }
}

/// Those of the first `count` fields of the second struct that the first
/// struct lacks, each nullable.
pub open spec fn unknown_fields(xs: Seq<Traced>, ys: Seq<Traced>, count: nat) -> Seq<Traced>
    decreases count,
{
    if count == 0 {
        Seq::empty()
    } else {
        let init = unknown_fields(xs, ys, (count - 1) as nat);
        if position_of(xs, ys[count - 1].name, xs.len()) is None {
            init.push(optional(ys[count - 1]))
        } else {
            init
        }
    }
}

/// The first `count` children, merged one by one; beyond the end of either
/// sequence the child of the other is taken.
pub open spec fn merged_children(
    options: TracingOptions,
    xs: Seq<Traced>,
    ys: Seq<Traced>,
    count: nat,
) -> core::result::Result<Seq<Traced>, Error>
    decreases xs, count,
{
    if count == 0 {
        Ok(Seq::empty())
    } else {
        match merged_children(options, xs, ys, (count - 1) as nat) {
            Err(e) => Err(e),
            Ok(init) => {
                let last = if count - 1 < xs.len() {
                    merged(options, xs[count - 1], at(ys, count - 1))
                } else {
                    Ok(at(ys, count - 1))
                };
                match last {
                    Ok(m) => Ok(init.push(m)),
                    Err(e) => Err(e),
                }
            },
        }
    }
}

impl Node {
    /// What the children say, one by one.
    pub open spec fn children_view(&self) -> Seq<Traced>
        decreases self, 0nat,
    {
        Seq::new(
            self.children.len() as nat,
            |j: int|
                if 0 <= j < self.children.len() {
                    self.children[j].view()
                } else {
                    blank()
                },
        )
    }
}

impl View for Node {
    type V = Traced;

    open spec fn view(&self) -> Traced
        decreases self, 1nat,
    {
        Traced {
            name: self.name@,
            nullable: self.nullable,
            kind: self.kind,
            children: self.children_view(),
        }
    }
}

impl Node {
    /// The type of no sample at all.
    pub fn blank() -> (r: Node)
        ensures
            r@ == blank(),
    {
        let r = Node {
            name: String::new(),
            nullable: false,
            kind: NodeKind::Unknown,
            children: Vec::new(),
        };
        assert(r.children_view() =~= Seq::<Traced>::empty());
        r
    }

    /// A type without children.
    pub fn leaf(kind: NodeKind, nullable: bool) -> (r: Node)
        ensures
            r@ == (Traced { name: Seq::empty(), nullable, kind, children: Seq::empty() }),
    {
        let r = Node { name: String::new(), nullable, kind, children: Vec::new() };
        assert(r.children_view() =~= Seq::<Traced>::empty());
        r
    }

    /// Whether this is the type of no sample at all.
    pub fn is_blank(&self) -> (r: bool)
        ensures
            r == (self@ == blank()),
    {
        let r = self.name.as_str().unicode_len() == 0 && !self.nullable && matches!(
            self.kind,
            NodeKind::Unknown
        ) && self.children.len() == 0;
        proof {
            if r {
                assert(self.name@ =~= Seq::<char>::empty());
                assert(self.children_view() =~= Seq::<Traced>::empty());
            } else if self@ == blank() {
                assert(self.children_view().len() == 0);
            }
        }
        r
    }

    /// A copy of the type.
    pub fn duplicate(&self) -> (r: Node)
        ensures
            r@ == self@,
        decreases self,
    {
        let mut children: Vec<Node> = Vec::new();
        let mut k: usize = 0;
        while k < self.children.len()
            invariant
                k <= self.children.len(),
                children.len() == k,
                forall|j: int| 0 <= j < k ==> (#[trigger] children[j])@ == self.children[j]@,
            decreases self.children.len() - k,
        {
            children.push(self.children[k].duplicate());
            k = k + 1;
        }
        let r = Node {
            name: self.name.clone(),
            nullable: self.nullable,
            kind: self.kind,
            children,
        };
        assert(r.children_view() =~= self.children_view());
        r
    }
}

/// What the nodes say, one by one.
pub open spec fn nodes_view(nodes: Seq<Node>) -> Seq<Traced> {
    Seq::new(nodes.len(), |j: int| nodes[j]@)
}

/// Merges the children of another type into the children of a type: the
/// first `count` children one by one, and beyond the end of either the
/// child of the other.
fn merge_children(xs: &mut Vec<Node>, ys: &Vec<Node>, count: usize, options: TracingOptions) -> (r:
    Result<()>)
    requires
        old(xs).len() <= count,
        ys.len() <= count,
        old(xs).len() == count || ys.len() == count,
    ensures
        match merged_children(options, nodes_view(old(xs)@), nodes_view(ys@), count as nat) {
            Ok(children) => r is Ok && nodes_view(final(xs)@) == children,
            Err(e) => r == Err::<(), Error>(e),
        },
    decreases *old(xs),
{
    let ghost before = nodes_view(xs@);
    let ghost other = nodes_view(ys@);
    let mut k: usize = 0;
    proof {
        assert(nodes_view(xs@).take(0) =~= Seq::<Traced>::empty());
    }
    while k < count
        invariant
            k <= count,
            ys.len() <= count,
            old(xs).len() <= count,
            old(xs).len() == count || ys.len() == count,
            before == nodes_view(old(xs)@),
            other == nodes_view(ys@),
            xs.len() == if k <= old(xs).len() {
                old(xs).len()
            } else {
                k
            },
            forall|j: int| k <= j < old(xs).len() ==> (#[trigger] xs[j]) == old(xs)[j],
            merged_children(options, before, other, k as nat) == Ok::<Seq<Traced>, Error>(
                nodes_view(xs@).take(k as int),
            ),
        decreases count - k,
    {
        let ghost held = nodes_view(xs@);
        proof {
            // a failure at this child fails every longer prefix
            lemma_merged_children_fails(options, before, other, (k + 1) as nat, count as nat);
        }
        proof {
            assert(other[k as int] == ys[k as int]@ || k >= ys.len());
            assert(at(other, k as int) == if k < ys.len() {
                ys[k as int]@
            } else {
                blank()
            });
            if k < xs.len() {
                assert(xs[k as int] == old(xs)[k as int]);
                assert(before[k as int] == xs[k as int]@);
            }
        }
        if k < xs.len() {
            if k < ys.len() {
                match xs[k].merge(&ys[k], options) {
                    Ok(()) => {},
                    Err(e) => {
                        return Err(e);
                    },
                }
            }
        } else {
            xs.push(ys[k].duplicate());
        }
        proof {
            assert(nodes_view(xs@).take(k as int) =~= held.take(k as int));
            assert(nodes_view(xs@).take(k + 1) =~= held.take(k as int).push(
                nodes_view(xs@)[k as int],
            ));
            let last = if k < before.len() {
                merged(options, before[k as int], at(other, k as int))
            } else {
                Ok(at(other, k as int))
            };
            assert(last == Ok::<Traced, Error>(nodes_view(xs@)[k as int]));
        }
        k = k + 1;
    }
    proof {
        assert(nodes_view(xs@).take(count as int) =~= nodes_view(xs@));
    }
    Ok(())
}

/// Where the children fail to merge up to some count, they fail to merge
/// up to every greater count, in the same way.
pub proof fn lemma_merged_children_fails(
    options: TracingOptions,
    xs: Seq<Traced>,
    ys: Seq<Traced>,
    count: nat,
    more: nat,
)
    requires
        count <= more,
    ensures
        merged_children(options, xs, ys, count) matches Err(e) ==> merged_children(
            options,
            xs,
            ys,
            more,
        ) == Err::<Seq<Traced>, Error>(e),
    decreases more,
{
    if count < more {
        lemma_merged_children_fails(options, xs, ys, count, (more - 1) as nat);
    }
}

/// The index of the first of the first `count` nodes that has the name.
fn position(nodes: &Vec<Node>, name: &String, count: usize) -> (r: Option<usize>)
    requires
        count <= nodes.len(),
    ensures
        match position_of(nodes_view(nodes@), name@, count as nat) {
            Some(i) => r == Some(i as usize) && 0 <= i < count,
            None => r is None,
        },
{
    let mut k: usize = 0;
    while k < count
        invariant
            k <= count <= nodes.len(),
            position_of(nodes_view(nodes@), name@, k as nat) is None,
        decreases count - k,
    {
        if nodes[k].name == *name {
            proof {
                lemma_position_found(nodes_view(nodes@), name@, (k + 1) as nat, count as nat);
            }
            return Some(k);
        }
        k = k + 1;
    }
    None
}

/// The type at the position of a name has the name.
pub proof fn lemma_position_named(nodes: Seq<Traced>, name: Seq<char>, count: nat)
    ensures
        position_of(nodes, name, count) matches Some(i) ==> 0 <= i < count && nodes[i].name
            == name,
    decreases count,
{
    if count > 0 {
        lemma_position_named(nodes, name, (count - 1) as nat);
    }
}

/// Once a type has the name, further types change nothing.
pub proof fn lemma_position_found(nodes: Seq<Traced>, name: Seq<char>, count: nat, more: nat)
    requires
        count <= more,
        position_of(nodes, name, count) is Some,
    ensures
        position_of(nodes, name, more) == position_of(nodes, name, count),
    decreases more,
{
    if count < more {
        lemma_position_found(nodes, name, count, (more - 1) as nat);
    }
}

/// The position of a name depends on the names alone.
pub proof fn lemma_position_names(xs: Seq<Traced>, ys: Seq<Traced>, name: Seq<char>, count: nat)
    requires
        count <= xs.len(),
        count <= ys.len(),
        forall|j: int| 0 <= j < count ==> (#[trigger] xs[j]).name == ys[j].name,
    ensures
        position_of(xs, name, count) == position_of(ys, name, count),
    decreases count,
{
    if count > 0 {
        lemma_position_names(xs, ys, name, (count - 1) as nat);
    }
}

/// Where the fields fail to merge up to some count, they fail to merge up
/// to every greater count, in the same way.
pub proof fn lemma_merged_known_fails(
    options: TracingOptions,
    xs: Seq<Traced>,
    ys: Seq<Traced>,
    count: nat,
    more: nat,
)
    requires
        count <= more,
    ensures
        merged_known(options, xs, ys, count) matches Err(e) ==> merged_known(
            options,
            xs,
            ys,
            more,
        ) == Err::<Seq<Traced>, Error>(e),
    decreases more,
{
    if count < more {
        lemma_merged_known_fails(options, xs, ys, count, (more - 1) as nat);
    }
}

/// A merged type has the name of the types it was merged from.
pub proof fn lemma_merged_name(options: TracingOptions, a: Traced, b: Traced)
    requires
        a.name == b.name,
    ensures
        merged(options, a, b) matches Ok(m) ==> m.name == a.name,
{
}

/// Merges the fields of another struct into the fields of a struct: every
/// field with the field of the same name, and a field that the other
/// struct lacks becomes nullable.
fn merge_known(xs: &mut Vec<Node>, ys: &Vec<Node>, options: TracingOptions) -> (r: Result<()>)
    ensures
        match merged_known(
            options,
            nodes_view(old(xs)@),
            nodes_view(ys@),
            old(xs).len() as nat,
        ) {
            Ok(children) => r is Ok && nodes_view(final(xs)@) == children && final(xs).len()
                == old(xs).len() && forall|j: int|
                0 <= j < old(xs).len() ==> (#[trigger] final(xs)[j]).name@ == old(xs)[j].name@,
            Err(e) => r == Err::<(), Error>(e),
        },
    decreases *old(xs),
{
    let ghost before = nodes_view(xs@);
    let ghost other = nodes_view(ys@);
    let count = xs.len();
    let mut k: usize = 0;
    proof {
        assert(nodes_view(xs@).take(0) =~= Seq::<Traced>::empty());
    }
    while k < count
        invariant
            k <= count,
            count == old(xs).len(),
            xs.len() == count,
            before == nodes_view(old(xs)@),
            other == nodes_view(ys@),
            forall|j: int| k <= j < count ==> (#[trigger] xs[j]) == old(xs)[j],
            forall|j: int| 0 <= j < k ==> (#[trigger] xs[j]).name@ == old(xs)[j].name@,
            merged_known(options, before, other, k as nat) == Ok::<Seq<Traced>, Error>(
                nodes_view(xs@).take(k as int),
            ),
        decreases count - k,
    {
        let ghost held = nodes_view(xs@);
        proof {
            lemma_merged_known_fails(options, before, other, (k + 1) as nat, count as nat);
            assert(xs[k as int] == old(xs)[k as int]);
            assert(before[k as int] == xs[k as int]@);
        }
        match position(ys, &xs[k].name, ys.len()) {
            Some(i) => {
                proof {
                    assert(other[i as int] == ys[i as int]@);
                    lemma_position_named(other, before[k as int].name, ys.len() as nat);
                    lemma_merged_name(options, before[k as int], other[i as int]);
                }
                match xs[k].merge(&ys[i], options) {
                    Ok(()) => {},
                    Err(e) => {
                        return Err(e);
                    },
                }
            },
            None => {
                let ghost node = xs[k as int];
                xs[k].nullable = true;
                proof {
                    assert(xs[k as int].children_view() =~= node.children_view());
                }
            },
        }
        proof {
            assert(nodes_view(xs@).take(k as int) =~= held.take(k as int));
            assert(nodes_view(xs@).take(k + 1) =~= held.take(k as int).push(
                nodes_view(xs@)[k as int],
            ));
        }
        k = k + 1;
    }
    proof {
        assert(nodes_view(xs@).take(count as int) =~= nodes_view(xs@));
    }
    Ok(())
}

/// Appends the fields of another struct that the struct lacks, each
/// nullable.
fn append_unknown(xs: &mut Vec<Node>, ys: &Vec<Node>, Ghost(known): Ghost<Seq<Node>>)
    requires
        old(xs).len() == known.len(),
        forall|j: int| 0 <= j < known.len() ==> (#[trigger] old(xs)[j]).name@ == known[j].name@,
    ensures
        nodes_view(final(xs)@) == nodes_view(old(xs)@) + unknown_fields(
            nodes_view(known),
            nodes_view(ys@),
            ys.len() as nat,
        ),
{
    let count = xs.len();
    let ghost merged_fields = nodes_view(xs@);
    let mut k: usize = 0;
    proof {
        assert(merged_fields + Seq::<Traced>::empty() =~= merged_fields);
    }
    while k < ys.len()
        invariant
            k <= ys.len(),
            count == known.len(),
            count <= xs.len(),
            merged_fields == nodes_view(old(xs)@),
            forall|j: int| 0 <= j < count ==> (#[trigger] xs[j]).name@ == known[j].name@,
            nodes_view(xs@) == merged_fields + unknown_fields(
                nodes_view(known),
                nodes_view(ys@),
                k as nat,
            ),
        decreases ys.len() - k,
    {
        let ghost held = nodes_view(xs@);
        proof {
            lemma_position_names(
                nodes_view(xs@),
                nodes_view(known),
                ys[k as int].name@,
                count as nat,
            );
        }
        if position(xs, &ys[k].name, count).is_none() {
            let mut field = ys[k].duplicate();
            let ghost copy = field;
            field.nullable = true;
            proof {
                assert(field.children_view() =~= copy.children_view());
            }
            xs.push(field);
            proof {
                assert(nodes_view(xs@) =~= held.push(optional(ys[k as int]@)));
                assert(nodes_view(xs@) =~= merged_fields + unknown_fields(
                    nodes_view(known),
                    nodes_view(ys@),
                    (k + 1) as nat,
                ));
            }
        }
        k = k + 1;
    }
}

impl Node {
    /// Merges the type of further samples into this type.
    ///
    /// After a failure the type is to be discarded.
    pub fn merge(&mut self, other: &Node, options: TracingOptions) -> (r: Result<()>)
        ensures
            match merged(options, old(self)@, other@) {
                Ok(t) => r is Ok && final(self)@ == t,
                Err(e) => r == Err::<(), Error>(e),
            },
        decreases *old(self),
    {
        if other.is_blank() {
            return Ok(());
        }
        if self.is_blank() {
            *self = other.duplicate();
            return Ok(());
        }
        if self.name != other.name {
            return Err(Error::SchemaInferenceFailure);
        }
        let nullable = self.nullable || other.nullable;
        let ghost before = *self;
        proof {
            assert(self.children_view() =~= nodes_view(self.children@));
            assert(other.children_view() =~= nodes_view(other.children@));
        }
        match (self.kind, other.kind) {
            (NodeKind::Unknown, _) => {
                *self = other.duplicate();
                self.nullable = nullable;
                assert(self.children_view() =~= other.children_view());
                Ok(())
            },
            (_, NodeKind::Unknown) => {
                self.nullable = nullable;
                assert(self.children_view() =~= before.children_view());
                Ok(())
            },
            (NodeKind::Primitive(x), NodeKind::Primitive(y)) => {
                let data_type = if x == y {
                    Some(x)
                } else if options.coerce_numbers {
                    widen(x, y)
                } else {
                    None
                };
                match data_type {
                    Some(t) => {
                        self.kind = NodeKind::Primitive(t);
                        self.nullable = nullable;
                        assert(self.children_view() =~= before.children_view());
                        Ok(())
                    },
                    None => Err(Error::SchemaInferenceFailure),
                }
            },
            (NodeKind::Union, NodeKind::Union) => {
                let count = if self.children.len() >= other.children.len() {
                    self.children.len()
                } else {
                    other.children.len()
                };
                match merge_children(&mut self.children, &other.children, count, options) {
                    Ok(()) => {},
                    Err(e) => {
                        return Err(e);
                    },
                }
                self.nullable = nullable;
                assert(self.children_view() =~= nodes_view(self.children@));
                Ok(())
            },
            (NodeKind::Struct, NodeKind::Struct) if options.merge_unknown_struct_fields => {
                match merge_known(&mut self.children, &other.children, options) {
                    Ok(()) => {},
                    Err(e) => {
                        return Err(e);
                    },
                }
                append_unknown(&mut self.children, &other.children, Ghost(before.children@));
                self.nullable = nullable;
                assert(self.children_view() =~= nodes_view(self.children@));
                Ok(())
            },
            (x, y) => {
                if x == y && self.children.len() == other.children.len() {
                    let count = self.children.len();
                    match merge_children(&mut self.children, &other.children, count, options) {
                        Ok(()) => {},
                        Err(e) => {
                            return Err(e);
                        },
                    }
                    self.nullable = nullable;
                    assert(self.children_view() =~= nodes_view(self.children@));
                    Ok(())
                } else {
                    Err(Error::SchemaInferenceFailure)
                }
            },
        }
    }
}

/// The data type of integers of the width.
pub open spec fn int_data_type(ty: IntType) -> GenericDataType {
    match ty {
        IntType::I8 => GenericDataType::I8,
        IntType::I16 => GenericDataType::I16,
        IntType::I32 => GenericDataType::I32,
        IntType::I64 => GenericDataType::I64,
        IntType::U8 => GenericDataType::U8,
        IntType::U16 => GenericDataType::U16,
        IntType::U32 => GenericDataType::U32,
        IntType::U64 => GenericDataType::U64,
    }
}

/// A type without children and without a name.
pub open spec fn leaf(kind: NodeKind, nullable: bool) -> Traced {
    Traced { name: Seq::empty(), nullable, kind, children: Seq::empty() }
}

/// A type that is present, with the given children.
pub open spec fn branch(kind: NodeKind, children: Seq<Traced>) -> Traced {
    Traced { name: Seq::empty(), nullable: false, kind, children }
}

/// The type under the given name.
pub open spec fn named_as(t: Traced, name: Seq<char>) -> Traced {
    Traced { name, ..t }
}

/// The variants of a union of which only the variant at `index` was seen.
pub open spec fn only_variant(index: int, t: Traced) -> Seq<Traced> {
    Seq::new(
        (index + 1) as nat,
        |j: int|
            if j == index {
                t
            } else {
                blank()
            },
    )
}

/// The type of the one sample whose events start at `pos`, and where its
/// events end.
///
/// An absent value is of unknown type and nullable; `Default` tells
/// nothing. A string is a `LargeUtf8`; bytes have no type. The items of a
/// list merge to the type of its one child; a struct has a child for
/// every field, a tuple for every element; the keys and the values of a
/// map merge to its two children; a union has the type of its value at
/// the index of its variant. A stream that ends inside the sample, or an
/// end where a value is awaited, is a `ProtocolViolation`.
pub open spec fn sample_type(options: TracingOptions, events: Seq<EventView>, pos: nat) -> core::result::Result<
    (Traced, nat),
    Error,
>
    decreases events.len() - pos, 1nat,
{
    if pos >= events.len() {
        Err(Error::ProtocolViolation)
    } else {
        match events[pos as int] {
            EventView::Null => Ok((leaf(NodeKind::Unknown, true), pos + 1)),
            EventView::Default => Ok((blank(), pos + 1)),
            EventView::Bool(_) => Ok(
                (leaf(NodeKind::Primitive(GenericDataType::Bool), false), pos + 1),
            ),
            EventView::Int(ty, _) => Ok(
                (leaf(NodeKind::Primitive(int_data_type(ty)), false), pos + 1),
            ),
            EventView::F32(_) => Ok(
                (leaf(NodeKind::Primitive(GenericDataType::F32), false), pos + 1),
            ),
            EventView::F64(_) => Ok(
                (leaf(NodeKind::Primitive(GenericDataType::F64), false), pos + 1),
            ),
            EventView::Str(_) => Ok(
                (leaf(NodeKind::Primitive(GenericDataType::LargeUtf8), false), pos + 1),
            ),
            EventView::Bytes(_) => Err(Error::UnsupportedType),
            EventView::End(_) => Err(Error::ProtocolViolation),
            EventView::Start(Container::List) => match sample_items(
                options,
                events,
                pos + 1,
                blank(),
            ) {
                Ok((item, end)) => Ok((branch(NodeKind::List, seq![item]), end)),
                Err(e) => Err(e),
            },
            EventView::Start(Container::Tuple) => match sample_fields(
                options,
                events,
                pos + 1,
                false,
                Seq::empty(),
            ) {
                Ok((children, end)) => Ok((branch(NodeKind::Tuple, children), end)),
                Err(e) => Err(e),
            },
            EventView::Start(Container::Struct) => match sample_fields(
                options,
                events,
                pos + 1,
                true,
                Seq::empty(),
            ) {
                Ok((children, end)) => Ok((branch(NodeKind::Struct, children), end)),
                Err(e) => Err(e),
            },
            EventView::Start(Container::Mapping) => match sample_entries(
                options,
                events,
                pos + 1,
                blank(),
                blank(),
            ) {
                Ok((children, end)) => Ok((branch(NodeKind::Mapping, children), end)),
                Err(e) => Err(e),
            },
            EventView::Variant(name, index) => if index >= usize::MAX {
                Err(Error::UnsupportedType)
            } else {
                match sample_type(options, events, pos + 1) {
                    Ok((t, end)) => Ok(
                        (branch(NodeKind::Union, only_variant(index, named_as(t, name))), end),
                    ),
                    Err(e) => Err(e),
                }
            },
        }
    }
}

/// The merged type of the items from `pos` up to the end of the list,
/// after the items that merged to `item`.
pub open spec fn sample_items(
    options: TracingOptions,
    events: Seq<EventView>,
    pos: nat,
    item: Traced,
) -> core::result::Result<(Traced, nat), Error>
    decreases events.len() - pos, 2nat,
{
    if pos >= events.len() {
        Err(Error::ProtocolViolation)
    } else if events[pos as int] == EventView::End(Container::List) {
        Ok((item, pos + 1))
    } else {
        match sample_type(options, events, pos) {
            Err(e) => Err(e),
            Ok((t, end)) => match merged(options, item, t) {
                Err(e) => Err(e),
                Ok(m) => if pos < end <= events.len() {
                    sample_items(options, events, end, m)
                } else {
                    Err(Error::ProtocolViolation)
                },
            },
        }
    }
}

/// The types of the fields of a struct (`keyed`) or of the elements of a
/// tuple from `pos` up to its end, after those in `done`.
pub open spec fn sample_fields(
    options: TracingOptions,
    events: Seq<EventView>,
    pos: nat,
    keyed: bool,
    done: Seq<Traced>,
) -> core::result::Result<(Seq<Traced>, nat), Error>
    decreases events.len() - pos, 2nat,
{
    if pos >= events.len() {
        Err(Error::ProtocolViolation)
    } else if events[pos as int] == EventView::End(
        if keyed {
            Container::Struct
        } else {
            Container::Tuple
        },
    ) {
        Ok((done, pos + 1))
    } else if keyed {
        match events[pos as int] {
            EventView::Str(name) => match sample_type(options, events, pos + 1) {
                Err(e) => Err(e),
                Ok((t, end)) => if pos < end <= events.len() {
                    sample_fields(options, events, end, keyed, done.push(named_as(t, name)))
                } else {
                    Err(Error::ProtocolViolation)
                },
            },
            _ => Err(Error::ProtocolViolation),
        }
    } else {
        match sample_type(options, events, pos) {
            Err(e) => Err(e),
            Ok((t, end)) => if pos < end <= events.len() {
                sample_fields(options, events, end, keyed, done.push(t))
            } else {
                Err(Error::ProtocolViolation)
            },
        }
    }
}

/// The merged types of the keys and of the values from `pos` up to the
/// end of the map, after the entries that merged to `key` and `value`.
pub open spec fn sample_entries(
    options: TracingOptions,
    events: Seq<EventView>,
    pos: nat,
    key: Traced,
    value: Traced,
) -> core::result::Result<(Seq<Traced>, nat), Error>
    decreases events.len() - pos, 2nat,
{
    if pos >= events.len() {
        Err(Error::ProtocolViolation)
    } else if events[pos as int] == EventView::End(Container::Mapping) {
        Ok((seq![key, value], pos + 1))
    } else {
        match sample_type(options, events, pos) {
            Err(e) => Err(e),
            Ok((k, middle)) => match merged(options, key, k) {
                Err(e) => Err(e),
                Ok(merged_key) => if pos < middle <= events.len() {
                    match sample_type(options, events, middle) {
                        Err(e) => Err(e),
                        Ok((v, end)) => match merged(options, value, v) {
                            Err(e) => Err(e),
                            Ok(merged_value) => if middle < end <= events.len() {
                                sample_entries(options, events, end, merged_key, merged_value)
                            } else {
                                Err(Error::ProtocolViolation)
                            },
                        },
                    }
                } else {
                    Err(Error::ProtocolViolation)
                },
            },
        }
    }
}

/// The sample's events end after they start, and inside the stream.
pub proof fn lemma_sample_advances(options: TracingOptions, events: Seq<EventView>, pos: nat)
    ensures
        sample_type(options, events, pos) matches Ok((t, end)) ==> pos < end <= events.len(),
    decreases events.len() - pos,
{
    if pos < events.len() {
        lemma_items_advance(options, events, pos + 1, blank());
        lemma_fields_advance(options, events, pos + 1, true, Seq::empty());
        lemma_fields_advance(options, events, pos + 1, false, Seq::empty());
        lemma_entries_advance(options, events, pos + 1, blank(), blank());
        lemma_sample_advances(options, events, pos + 1);
    }
}

/// The items end after they start, and inside the stream.
pub proof fn lemma_items_advance(
    options: TracingOptions,
    events: Seq<EventView>,
    pos: nat,
    item: Traced,
)
    ensures
        sample_items(options, events, pos, item) matches Ok((t, end)) ==> pos < end
            <= events.len(),
    decreases events.len() - pos,
{
    if pos < events.len() && events[pos as int] != EventView::End(Container::List) {
        match sample_type(options, events, pos) {
            Ok((t, end)) => match merged(options, item, t) {
                Ok(m) => if pos < end <= events.len() {
                    lemma_items_advance(options, events, end, m);
                },
                Err(e) => {},
            },
            Err(e) => {},
        }
    }
}

/// The fields end after they start, and inside the stream.
pub proof fn lemma_fields_advance(
    options: TracingOptions,
    events: Seq<EventView>,
    pos: nat,
    keyed: bool,
    done: Seq<Traced>,
)
    ensures
        sample_fields(options, events, pos, keyed, done) matches Ok((t, end)) ==> pos < end
            <= events.len(),
    decreases events.len() - pos,
{
    if pos < events.len() {
        if keyed {
            match events[pos as int] {
                EventView::Str(name) => match sample_type(options, events, pos + 1) {
                    Ok((t, end)) => if pos < end <= events.len() {
                        lemma_fields_advance(
                            options,
                            events,
                            end,
                            keyed,
                            done.push(named_as(t, name)),
                        );
                    },
                    Err(e) => {},
                },
                _ => {},
            }
        } else {
            match sample_type(options, events, pos) {
                Ok((t, end)) => if pos < end <= events.len() {
                    lemma_fields_advance(options, events, end, keyed, done.push(t));
                },
                Err(e) => {},
            }
        }
    }
}

/// The entries end after they start, and inside the stream.
pub proof fn lemma_entries_advance(
    options: TracingOptions,
    events: Seq<EventView>,
    pos: nat,
    key: Traced,
    value: Traced,
)
    ensures
        sample_entries(options, events, pos, key, value) matches Ok((t, end)) ==> pos < end
            <= events.len(),
    decreases events.len() - pos,
{
    if pos < events.len() && events[pos as int] != EventView::End(Container::Mapping) {
        match sample_type(options, events, pos) {
            Ok((k, middle)) => match merged(options, key, k) {
                Ok(mk) => if pos < middle <= events.len() {
                    match sample_type(options, events, middle) {
                        Ok((v, end)) => match merged(options, value, v) {
                            Ok(mv) => if middle < end <= events.len() {
                                lemma_entries_advance(options, events, end, mk, mv);
                            },
                            Err(e) => {},
                        },
                        Err(e) => {},
                    }
                },
                Err(e) => {},
            },
            Err(e) => {},
        }
    }
}

/// What a sampling function returns, held against what its specification
/// says.
pub open spec fn sampled(
    expected: core::result::Result<(Traced, nat), Error>,
    outcome: Result<(Node, usize)>,
) -> bool {
    match expected {
        Ok((t, end)) => outcome matches Ok((node, e)) && node@ == t && e == end,
        Err(err) => outcome matches Err(e) && e == err,
    }
}

/// A type that is present, with the given children.
fn branch_node(kind: NodeKind, children: Vec<Node>) -> (r: Node)
    ensures
        r@ == branch(kind, nodes_view(children@)),
{
    let r = Node { name: String::new(), nullable: false, kind, children };
    assert(r.children_view() =~= nodes_view(children@));
    r
}

/// The type under the given name.
fn rename(node: Node, name: &String) -> (r: Node)
    ensures
        r@ == named_as(node@, name@),
{
    let mut r = node;
    r.name = name.clone();
    assert(r.children_view() =~= node.children_view());
    r
}

/// The variants of a union of which only the variant at `index` was seen.
fn only_variant_nodes(index: usize, node: Node) -> (r: Vec<Node>)
    requires
        index < usize::MAX,
    ensures
        nodes_view(r@) == only_variant(index as int, node@),
{
    let mut r: Vec<Node> = Vec::new();
    let mut k: usize = 0;
    while k < index
        invariant
            k <= index,
            r.len() == k,
            forall|j: int| 0 <= j < k ==> (#[trigger] r[j])@ == blank(),
        decreases index - k,
    {
        r.push(Node::blank());
        k = k + 1;
    }
    r.push(node);
    assert(nodes_view(r@) =~= only_variant(index as int, node@));
    r
}

/// The type of the items of the list whose first item starts at `start`.
fn sample_list(events: &Vec<Event>, start: usize, options: TracingOptions) -> (r: Result<
    (Node, usize),
>)
    requires
        start <= events.len(),
    ensures
        sampled(sample_items(options, views(events@), start as nat, blank()), r),
    decreases events.len() - start, 2nat,
{
    let mut item = Node::blank();
    let mut cur = start;
    while cur < events.len()
        invariant
            start <= cur <= events.len(),
            sample_items(options, views(events@), start as nat, blank()) == sample_items(
                options,
                views(events@),
                cur as nat,
                item@,
            ),
        decreases events.len() - cur,
    {
        if matches!(events[cur], Event::EndList) {
            return Ok((item, cur + 1));
        }
        proof {
            lemma_sample_advances(options, views(events@), cur as nat);
        }
        let (t, end) = match sample(events, cur, options) {
            Ok(found) => found,
            Err(e) => {
                return Err(e);
            },
        };
        match item.merge(&t, options) {
            Ok(()) => {},
            Err(e) => {
                return Err(e);
            },
        }
        cur = end;
    }
    Err(Error::ProtocolViolation)
}

/// The types of the fields of the struct, or of the elements of the
/// tuple, whose first field starts at `start`.
fn sample_record(events: &Vec<Event>, start: usize, keyed: bool, options: TracingOptions) -> (r:
    Result<(Vec<Node>, usize)>)
    requires
        start <= events.len(),
    ensures
        match sample_fields(options, views(events@), start as nat, keyed, Seq::empty()) {
            Ok((children, end)) => r matches Ok((nodes, e)) && nodes_view(nodes@) == children
                && e == end,
            Err(err) => r matches Err(e) && e == err,
        },
    decreases events.len() - start, 2nat,
{
    let mut done: Vec<Node> = Vec::new();
    let mut cur = start;
    assert(nodes_view(done@) =~= Seq::<Traced>::empty());
    while cur < events.len()
        invariant
            start <= cur <= events.len(),
            sample_fields(options, views(events@), start as nat, keyed, Seq::empty())
                == sample_fields(options, views(events@), cur as nat, keyed, nodes_view(done@)),
        decreases events.len() - cur,
    {
        let ghost held = nodes_view(done@);
        if keyed {
            match &events[cur] {
                Event::EndStruct => {
                    return Ok((done, cur + 1));
                },
                Event::Str(name) => {
                    proof {
                        lemma_sample_advances(options, views(events@), (cur + 1) as nat);
                    }
                    let (t, end) = match sample(events, cur + 1, options) {
                        Ok(found) => found,
                        Err(e) => {
                            return Err(e);
                        },
                    };
                    let field = rename(t, name);
                    done.push(field);
                    assert(nodes_view(done@) =~= held.push(field@));
                    cur = end;
                },
                _ => {
                    return Err(Error::ProtocolViolation);
                },
            }
        } else {
            if matches!(events[cur], Event::EndTuple) {
                return Ok((done, cur + 1));
            }
            proof {
                lemma_sample_advances(options, views(events@), cur as nat);
            }
            let (t, end) = match sample(events, cur, options) {
                Ok(found) => found,
                Err(e) => {
                    return Err(e);
                },
            };
            done.push(t);
            assert(nodes_view(done@) =~= held.push(t@));
            cur = end;
        }
    }
    Err(Error::ProtocolViolation)
}

/// The types of the keys and of the values of the map whose first key
/// starts at `start`.
fn sample_map(events: &Vec<Event>, start: usize, options: TracingOptions) -> (r: Result<
    (Vec<Node>, usize),
>)
    requires
        start <= events.len(),
    ensures
        match sample_entries(options, views(events@), start as nat, blank(), blank()) {
            Ok((children, end)) => r matches Ok((nodes, e)) && nodes_view(nodes@) == children
                && e == end,
            Err(err) => r matches Err(e) && e == err,
        },
    decreases events.len() - start, 2nat,
{
    let mut key = Node::blank();
    let mut value = Node::blank();
    let mut cur = start;
    while cur < events.len()
        invariant
            start <= cur <= events.len(),
            sample_entries(options, views(events@), start as nat, blank(), blank())
                == sample_entries(options, views(events@), cur as nat, key@, value@),
        decreases events.len() - cur,
    {
        if matches!(events[cur], Event::EndMap) {
            let mut children: Vec<Node> = Vec::new();
            children.push(key);
            children.push(value);
            assert(nodes_view(children@) =~= seq![key@, value@]);
            return Ok((children, cur + 1));
        }
        proof {
            lemma_sample_advances(options, views(events@), cur as nat);
        }
        let (k, middle) = match sample(events, cur, options) {
            Ok(found) => found,
            Err(e) => {
                return Err(e);
            },
        };
        match key.merge(&k, options) {
            Ok(()) => {},
            Err(e) => {
                return Err(e);
            },
        }
        proof {
            lemma_sample_advances(options, views(events@), middle as nat);
        }
        let (v, end) = match sample(events, middle, options) {
            Ok(found) => found,
            Err(e) => {
                return Err(e);
            },
        };
        match value.merge(&v, options) {
            Ok(()) => {},
            Err(e) => {
                return Err(e);
            },
        }
        cur = end;
    }
    Err(Error::ProtocolViolation)
}

/// Reads the type of the one sample whose events start at `pos`.
pub fn sample(events: &Vec<Event>, pos: usize, options: TracingOptions) -> (r: Result<
    (Node, usize),
>)
    ensures
        sampled(sample_type(options, views(events@), pos as nat), r),
    decreases events.len() - pos, 1nat,
{
    if pos >= events.len() {
        return Err(Error::ProtocolViolation);
    }
    let next = pos + 1;
    match &events[pos] {
        Event::Null => Ok((Node::leaf(NodeKind::Unknown, true), next)),
        Event::Default => Ok((Node::blank(), next)),
        Event::Bool(_) => Ok((Node::leaf(NodeKind::Primitive(GenericDataType::Bool), false), next)),
        Event::I8(_) => Ok((Node::leaf(NodeKind::Primitive(GenericDataType::I8), false), next)),
        Event::I16(_) => Ok((Node::leaf(NodeKind::Primitive(GenericDataType::I16), false), next)),
        Event::I32(_) => Ok((Node::leaf(NodeKind::Primitive(GenericDataType::I32), false), next)),
        Event::I64(_) => Ok((Node::leaf(NodeKind::Primitive(GenericDataType::I64), false), next)),
        Event::U8(_) => Ok((Node::leaf(NodeKind::Primitive(GenericDataType::U8), false), next)),
        Event::U16(_) => Ok((Node::leaf(NodeKind::Primitive(GenericDataType::U16), false), next)),
        Event::U32(_) => Ok((Node::leaf(NodeKind::Primitive(GenericDataType::U32), false), next)),
        Event::U64(_) => Ok((Node::leaf(NodeKind::Primitive(GenericDataType::U64), false), next)),
        Event::F32(_) => Ok((Node::leaf(NodeKind::Primitive(GenericDataType::F32), false), next)),
        Event::F64(_) => Ok((Node::leaf(NodeKind::Primitive(GenericDataType::F64), false), next)),
        Event::Str(_) => Ok(
            (Node::leaf(NodeKind::Primitive(GenericDataType::LargeUtf8), false), next),
        ),
        Event::Bytes(_) => Err(Error::UnsupportedType),
        Event::EndList | Event::EndStruct | Event::EndTuple | Event::EndMap => Err(
            Error::ProtocolViolation,
        ),
        Event::StartList => match sample_list(events, next, options) {
            Ok((item, end)) => {
                let mut children: Vec<Node> = Vec::new();
                children.push(item);
                assert(nodes_view(children@) =~= seq![item@]);
                Ok((branch_node(NodeKind::List, children), end))
            },
            Err(e) => Err(e),
        },
        Event::StartTuple => match sample_record(events, next, false, options) {
            Ok((children, end)) => Ok((branch_node(NodeKind::Tuple, children), end)),
            Err(e) => Err(e),
        },
        Event::StartStruct => match sample_record(events, next, true, options) {
            Ok((children, end)) => Ok((branch_node(NodeKind::Struct, children), end)),
            Err(e) => Err(e),
        },
        Event::StartMap => match sample_map(events, next, options) {
            Ok((children, end)) => Ok((branch_node(NodeKind::Mapping, children), end)),
            Err(e) => Err(e),
        },
        Event::Variant(name, index) => {
            if *index >= usize::MAX {
                return Err(Error::UnsupportedType);
            }
            match sample(events, next, options) {
                Ok((t, end)) => {
                    let children = only_variant_nodes(*index, rename(t, name));
                    Ok((branch_node(NodeKind::Union, children), end))
                },
                Err(e) => Err(e),
            }
        },
    }
}

/// The character of a decimal digit.
pub open spec fn digit(d: nat) -> char {
    if d == 0 {
        '0'
    } else if d == 1 {
        '1'
    } else if d == 2 {
        '2'
    } else if d == 3 {
        '3'
    } else if d == 4 {
        '4'
    } else if d == 5 {
        '5'
    } else if d == 6 {
        '6'
    } else if d == 7 {
        '7'
    } else if d == 8 {
        '8'
    } else {
        '9'
    }
}

/// The number in decimal digits.
pub open spec fn decimal(n: nat) -> Seq<char>
    decreases n,
{
    if n < 10 {
        seq![digit(n)]
    } else {
        decimal(n / 10).push(digit(n % 10))
    }
}

/// The text of a decimal digit.
fn digit_text(d: usize) -> (r: &'static str)
    requires
        d < 10,
    ensures
        r@ == seq![digit(d as nat)],
{
    proof {
        reveal_strlit("0");
        reveal_strlit("1");
        reveal_strlit("2");
        reveal_strlit("3");
        reveal_strlit("4");
        reveal_strlit("5");
        reveal_strlit("6");
        reveal_strlit("7");
        reveal_strlit("8");
        reveal_strlit("9");
    }
    let r = if d == 0 {
        "0"
    } else if d == 1 {
        "1"
    } else if d == 2 {
        "2"
    } else if d == 3 {
        "3"
    } else if d == 4 {
        "4"
    } else if d == 5 {
        "5"
    } else if d == 6 {
        "6"
    } else if d == 7 {
        "7"
    } else if d == 8 {
        "8"
    } else {
        "9"
    };
    assert(r@ =~= seq![digit(d as nat)]);
    r
}

/// The number in decimal digits: the name of an element of a tuple.
pub fn decimal_text(n: usize) -> (r: String)
    ensures
        r@ == decimal(n as nat),
    decreases n,
{
    if n < 10 {
        String::from_str(digit_text(n))
    } else {
        let mut r = decimal_text(n / 10);
        r.append(digit_text(n % 10));
        assert(r@ =~= decimal((n / 10) as nat).push(digit((n % 10) as nat)));
        r
    }
}

/// Whether the first `count` types are determined.
pub open spec fn all_determined(options: TracingOptions, ts: Seq<Traced>, count: nat) -> bool
    decreases ts, count,
{
    count > 0 ==> all_determined(options, ts, (count - 1) as nat) && (count - 1 < ts.len()
        ==> determined(options, ts[count - 1]))
}

/// Whether the type is one that a scalar sample or a merge of scalar
/// samples can have.
pub open spec fn sampled_type(data_type: GenericDataType) -> bool {
    data_type == GenericDataType::Bool || data_type == GenericDataType::LargeUtf8 || data_type
        == GenericDataType::F32 || data_type == GenericDataType::F64
        || data_type.spec_int_type() is Some
}

/// Whether the samples determine a schema: a type of which nothing is
/// known is a null column, where such columns are allowed; a list has an
/// item type and a map a key and a value type; a union has a variant; and
/// every child is determined.
pub open spec fn determined(options: TracingOptions, t: Traced) -> bool
    decreases t, 0nat,
{
    match t.kind {
        NodeKind::Unknown => options.allow_null_fields,
        NodeKind::Primitive(data_type) => sampled_type(data_type),
        NodeKind::List => t.children.len() == 1 && all_determined(options, t.children, 1),
        NodeKind::Mapping => t.children.len() == 2 && all_determined(options, t.children, 2),
        NodeKind::Struct | NodeKind::Tuple => all_determined(
            options,
            t.children,
            t.children.len(),
        ),
        NodeKind::Union => t.children.len() > 0 && all_determined(
            options,
            t.children,
            t.children.len(),
        ),
    }
}

/// The name of the child with index `j` of a field that was made from the
/// type: the traced name in a struct or a union, the index in a tuple,
/// and a fixed name in a list or a map.
pub open spec fn child_name(t: Traced, j: int) -> Seq<char> {
    match t.kind {
        NodeKind::List => "element"@,
        NodeKind::Mapping => if j == 0 {
            "key"@
        } else {
            "value"@
        },
        NodeKind::Tuple => decimal(j as nat),
        _ => t.children[j].name,
    }
}

/// Whether the field is the schema of the type, under the given name.
///
/// A type of which nothing is known is a nullable null column. A list is
/// a `LargeList`, a tuple a struct with the tuple strategy, and every
/// child of the field is the schema of the child of the type.
#[verifier::opaque]
pub open spec fn describes(field: &GenericField, t: Traced, name: Seq<char>) -> bool
    decreases field,
{
    &&& field.name@ == name
    &&& field.data_type == match t.kind {
        NodeKind::Unknown => GenericDataType::Null,
        NodeKind::Primitive(data_type) => data_type,
        NodeKind::List => GenericDataType::LargeList,
        NodeKind::Mapping => GenericDataType::Mapping,
        NodeKind::Struct | NodeKind::Tuple => GenericDataType::Struct,
        NodeKind::Union => GenericDataType::Union,
    }
    &&& field.nullable == (t.nullable || t.kind is Unknown)
    &&& field.strategy == if t.kind is Tuple {
        Some(Strategy::TupleAsStruct)
    } else {
        None
    }
    &&& field.children.len() == if t.kind is Unknown || t.kind is Primitive {
        0
    } else {
        t.children.len()
    }
    &&& forall|j: int|
        0 <= j < field.children.len() ==> describes(
            #[trigger] &field.children[j],
            t.children[j],
            child_name(t, j),
        )
}

/// Whether the field is the schema of the child with index `j` of the
/// type, and the child is determined.
pub open spec fn child_described(
    options: TracingOptions,
    field: GenericField,
    t: Traced,
    j: int,
) -> bool {
    &&& determined(options, t.children[j])
    &&& describes(&field, t.children[j], child_name(t, j))
    &&& field.supported()
}

/// Whether the first `count` fields are the schemas of the first children
/// of the type.
pub open spec fn children_described(
    options: TracingOptions,
    fields: Seq<GenericField>,
    t: Traced,
    count: int,
) -> bool {
    forall|j: int| 0 <= j < count ==> child_described(options, #[trigger] fields[j], t, j)
}

/// What `all_determined` says of each type.
pub proof fn lemma_all_determined(options: TracingOptions, ts: Seq<Traced>, count: nat)
    requires
        count <= ts.len(),
    ensures
        all_determined(options, ts, count) <==> forall|j: int|
            0 <= j < count ==> determined(options, #[trigger] ts[j]),
    decreases count,
{
    if count > 0 {
        lemma_all_determined(options, ts, (count - 1) as nat);
    }
}

impl Node {
    /// The schemas of the children, each under its name.
    fn children_fields(&self, options: TracingOptions) -> (r: Result<Vec<GenericField>>)
        ensures
            match r {
                Ok(fields) => fields.len() == self.children.len() && children_described(
                    options,
                    fields@,
                    self@,
                    fields.len() as int,
                ),
                Err(e) => e == Error::SchemaInferenceFailure && exists|j: int|
                    0 <= j < self.children.len() && !determined(
                        options,
                        #[trigger] self@.children[j],
                    ),
            },
        decreases self, 0nat,
    {
        let ghost t = self@;
        let mut fields: Vec<GenericField> = Vec::new();
        let mut k: usize = 0;
        while k < self.children.len()
            invariant
                k <= self.children.len(),
                fields.len() == k,
                t == self@,
                children_described(options, fields@, t, k as int),
            decreases self.children.len() - k,
        {
            let label = match self.kind {
                NodeKind::List => String::from_str("element"),
                NodeKind::Mapping => if k == 0 {
                    String::from_str("key")
                } else {
                    String::from_str("value")
                },
                NodeKind::Tuple => decimal_text(k),
                _ => self.children[k].name.clone(),
            };
            proof {
                assert(t.children == self.children_view());
                assert(t.children[k as int] == self.children[k as int]@);
                assert(t.children[k as int].name == self.children[k as int].name@);
                assert(label@ == child_name(t, k as int));
            }
            match self.children[k].to_field(label, options) {
                Ok(child) => {
                    let ghost held = fields@;
                    fields.push(child);
                    proof {
                        assert forall|j: int| 0 <= j < k + 1 implies child_described(
                            options,
                            #[trigger] fields@[j],
                            t,
                            j,
                        ) by {
                            if j < k {
                                assert(fields@[j] == held[j]);
                                assert(child_described(options, held[j], t, j));
                            }
                        }
                    }
                },
                Err(e) => {
                    assert(!determined(options, t.children[k as int]));
                    return Err(e);
                },
            }
            k = k + 1;
        }
        Ok(fields)
    }

    /// The schema of the type, under the given name.
    ///
    /// Fails with `SchemaInferenceFailure` where the samples do not
    /// determine a schema.
    pub fn to_field(&self, name: String, options: TracingOptions) -> (r: Result<GenericField>)
        ensures
            match r {
                Ok(field) => determined(options, self@) && describes(&field, self@, name@)
                    && field.supported(),
                Err(e) => e == Error::SchemaInferenceFailure && !determined(options, self@),
            },
        decreases self, 1nat,
    {
        let ghost t = self@;
        proof {
            reveal(describes);
            lemma_all_determined(options, t.children, t.children.len());
            if t.children.len() >= 1 {
                lemma_all_determined(options, t.children, 1);
            }
            if t.children.len() >= 2 {
                lemma_all_determined(options, t.children, 2);
            }
        }
        let (data_type, strategy) = match self.kind {
            NodeKind::Unknown => {
                if !options.allow_null_fields {
                    return Err(Error::SchemaInferenceFailure);
                }
                return Ok(
                    GenericField {
                        name,
                        data_type: GenericDataType::Null,
                        nullable: true,
                        children: Vec::new(),
                        strategy: None,
                    },
                );
            },
            NodeKind::Primitive(data_type) => {
                let sampled = matches!(
                    data_type,
                    GenericDataType::Bool | GenericDataType::LargeUtf8 | GenericDataType::F32
                        | GenericDataType::F64
                ) || data_type.int_type().is_some();
                if !sampled {
                    return Err(Error::SchemaInferenceFailure);
                }
                return Ok(
                    GenericField {
                        name,
                        data_type,
                        nullable: self.nullable,
                        children: Vec::new(),
                        strategy: None,
                    },
                );
            },
            NodeKind::List => {
                if self.children.len() != 1 {
                    return Err(Error::SchemaInferenceFailure);
                }
                (GenericDataType::LargeList, None)
            },
            NodeKind::Mapping => {
                if self.children.len() != 2 {
                    return Err(Error::SchemaInferenceFailure);
                }
                (GenericDataType::Mapping, None)
            },
            NodeKind::Struct => (GenericDataType::Struct, None),
            NodeKind::Tuple => (GenericDataType::Struct, Some(Strategy::TupleAsStruct)),
            NodeKind::Union => {
                if self.children.len() == 0 {
                    return Err(Error::SchemaInferenceFailure);
                }
                (GenericDataType::Union, None)
            },
        };
        let children = match self.children_fields(options) {
            Ok(children) => children,
            Err(e) => {
                return Err(e);
            },
        };
        proof {
            assert forall|j: int| 0 <= j < t.children.len() implies determined(
                options,
                #[trigger] t.children[j],
            ) by {
                assert(child_described(options, children@[j], t, j));
            }
        }
        let field = GenericField { name, data_type, nullable: self.nullable, children, strategy };
        proof {
            assert forall|j: int| 0 <= j < field.children.len() implies describes(
                #[trigger] &field.children[j],
                t.children[j],
                child_name(t, j),
            ) && field.children[j].supported() by {
                assert(child_described(options, children@[j], t, j));
            }
        }
        Ok(field)
    }
}

/// The type of the items of the sequence that the events are.
///
/// The events are one list, from the first event to the last; a stream
/// that is anything else is a `ProtocolViolation`. A sequence without
/// items has the blank type.
pub open spec fn traced_samples(options: TracingOptions, events: Seq<EventView>) -> core::result::Result<
    Traced,
    Error,
> {
    match sample_type(options, events, 0) {
        Err(e) => Err(e),
        Ok((t, end)) => if end == events.len() && t.kind is List && t.children.len() == 1 {
            Ok(t.children[0])
        } else {
            Err(Error::ProtocolViolation)
        },
    }
}

/// Infers a schema from samples.
#[derive(Debug)]
pub struct Tracer {
    pub options: TracingOptions,
    pub root: Node,
}

impl Tracer {
    /// A tracer that has seen no sample.
    pub fn new(options: TracingOptions) -> (r: Tracer)
        ensures
            r.options == options,
            r.root@ == blank(),
    {
        Tracer { options, root: Node::blank() }
    }

    /// Merges the types of the samples of a sequence into what the tracer
    /// has seen.
    ///
    /// After a failure the tracer is to be discarded.
    pub fn trace_samples(&mut self, items: &Vec<Event>) -> (r: Result<()>)
        ensures
            final(self).options == old(self).options,
            match traced_samples(old(self).options, views(items@)) {
                Err(e) => r == Err::<(), Error>(e),
                Ok(t) => match merged(old(self).options, old(self).root@, t) {
                    Ok(m) => r is Ok && final(self).root@ == m,
                    Err(e) => r == Err::<(), Error>(e),
                },
            },
    {
        let (list, end) = match sample(items, 0, self.options) {
            Ok(found) => found,
            Err(e) => {
                return Err(e);
            },
        };
        if end != items.len() || !matches!(list.kind, NodeKind::List) || list.children.len() != 1 {
            return Err(Error::ProtocolViolation);
        }
        assert(list@.children[0] == list.children[0]@);
        self.root.merge(&list.children[0], self.options)
    }

    /// The schema of what the tracer has seen, under the given name.
    ///
    /// Fails with `SchemaInferenceFailure` where the samples do not
    /// determine a schema; a tracer that has seen no sample determines
    /// none.
    pub fn to_field(&self, name: &str) -> (r: Result<GenericField>)
        ensures
            match r {
                Ok(field) => determined(self.options, self.root@) && describes(
                    &field,
                    self.root@,
                    name@,
                ) && field.supported(),
                Err(e) => e == Error::SchemaInferenceFailure && !determined(
                    self.options,
                    self.root@,
                ),
            },
    {
        self.root.to_field(String::from_str(name), self.options)
    }
}

} // verus!
