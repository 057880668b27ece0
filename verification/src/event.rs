//! The vocabulary of a traversal: scalars and structural markers.
use vstd::prelude::*;

verus! {

/// The integer widths an event or a column can have.
#[derive(Clone, Copy, Debug, PartialEq, Eq, Structural)]
pub enum IntType {
    I8,
    I16,
    I32,
    I64,
    U8,
    U16,
    U32,
    U64,
}

impl IntType {
    /// The least value of the type.
    pub open spec fn min(self) -> int {
        match self {
            IntType::I8 => -0x80,
            IntType::I16 => -0x8000,
            IntType::I32 => -0x8000_0000,
            IntType::I64 => -0x8000_0000_0000_0000,
            _ => 0,
        }
    }

    /// The greatest value of the type.
    pub open spec fn max(self) -> int {
        match self {
            IntType::I8 => 0x7f,
            IntType::I16 => 0x7fff,
            IntType::I32 => 0x7fff_ffff,
            IntType::I64 => 0x7fff_ffff_ffff_ffff,
            IntType::U8 => 0xff,
            IntType::U16 => 0xffff,
            IntType::U32 => 0xffff_ffff,
            IntType::U64 => 0xffff_ffff_ffff_ffff,
        }
    }

    /// Whether `value` can be stored in the type without loss.
    pub open spec fn holds(self, value: int) -> bool {
        self.min() <= value <= self.max()
    }

    /// Executable form of [`IntType::holds`].
    pub fn fits(self, value: i128) -> (r: bool)
        ensures
            r == self.holds(value as int),
    {
        match self {
            IntType::I8 => -0x80 <= value && value <= 0x7f,
            IntType::I16 => -0x8000 <= value && value <= 0x7fff,
            IntType::I32 => -0x8000_0000 <= value && value <= 0x7fff_ffff,
            IntType::I64 => -0x8000_0000_0000_0000 <= value && value <= 0x7fff_ffff_ffff_ffff,
            IntType::U8 => 0 <= value && value <= 0xff,
            IntType::U16 => 0 <= value && value <= 0xffff,
            IntType::U32 => 0 <= value && value <= 0xffff_ffff,
            IntType::U64 => 0 <= value && value <= 0xffff_ffff_ffff_ffff,
        }
    }
}

/// The widths a floating point column can have.
#[derive(Clone, Copy, Debug, PartialEq, Eq, Structural)]
pub enum FloatType {
    F16,
    F32,
    F64,
}

/// A floating point number as its IEEE 754 bit pattern, in the width in
/// which it arrived.
#[derive(Clone, Copy, Debug, PartialEq, Eq, Structural)]
pub enum Float {
    F32(u32),
    F64(u64),
}

/// The containers whose boundaries appear in a stream.
#[derive(Clone, Copy, Debug, PartialEq, Eq, Structural)]
pub enum Container {
    List,
    Struct,
    Tuple,
    Mapping,
}

/// One step of a traversal.
///
/// Floating point scalars are carried as their IEEE 754 bit patterns.
#[derive(Clone, Debug, PartialEq, Eq)]
pub enum Event {
    StartList,
    EndList,
    StartStruct,
    EndStruct,
    StartTuple,
    EndTuple,
    StartMap,
    EndMap,
    /// The discriminant of a tagged union: the variant's name and index.
    Variant(String, usize),
    /// An absent value.
    Null,
    /// A present value that is the zero of its type.
    Default,
    Bool(bool),
    I8(i8),
    I16(i16),
    I32(i32),
    I64(i64),
    U8(u8),
    U16(u16),
    U32(u32),
    U64(u64),
    F32(u32),
    F64(u64),
    Str(String),
    Bytes(Vec<u8>),
}

/// What an [`Event`] says, with text and bytes as sequences and every
/// integer as a mathematical integer beside its width.
pub enum EventView {
    Start(Container),
    End(Container),
    Variant(Seq<char>, int),
    Null,
    Default,
    Bool(bool),
    Int(IntType, int),
    F32(u32),
    F64(u64),
    Str(Seq<char>),
    Bytes(Seq<u8>),
}

impl EventView {
    /// The event opens a container.
    pub open spec fn is_start(self) -> bool {
        self is Start
    }

    /// The event closes a container.
    pub open spec fn is_end(self) -> bool {
        self is End
    }

    /// The event annotates the value that follows it.
    pub open spec fn is_marker(self) -> bool {
        self is Variant
    }

    /// The event is a complete value by itself.
    pub open spec fn is_value(self) -> bool {
        !self.is_start() && !self.is_end() && !self.is_marker()
    }
}

impl View for Event {
    type V = EventView;

    open spec fn view(&self) -> EventView {
        match self {
            Event::StartList => EventView::Start(Container::List),
            Event::EndList => EventView::End(Container::List),
            Event::StartStruct => EventView::Start(Container::Struct),
            Event::EndStruct => EventView::End(Container::Struct),
            Event::StartTuple => EventView::Start(Container::Tuple),
            Event::EndTuple => EventView::End(Container::Tuple),
            Event::StartMap => EventView::Start(Container::Mapping),
            Event::EndMap => EventView::End(Container::Mapping),
            Event::Variant(name, index) => EventView::Variant(name@, *index as int),
            Event::Null => EventView::Null,
            Event::Default => EventView::Default,
            Event::Bool(b) => EventView::Bool(*b),
            Event::I8(v) => EventView::Int(IntType::I8, *v as int),
            Event::I16(v) => EventView::Int(IntType::I16, *v as int),
            Event::I32(v) => EventView::Int(IntType::I32, *v as int),
            Event::I64(v) => EventView::Int(IntType::I64, *v as int),
            Event::U8(v) => EventView::Int(IntType::U8, *v as int),
            Event::U16(v) => EventView::Int(IntType::U16, *v as int),
            Event::U32(v) => EventView::Int(IntType::U32, *v as int),
            Event::U64(v) => EventView::Int(IntType::U64, *v as int),
            Event::F32(bits) => EventView::F32(*bits),
            Event::F64(bits) => EventView::F64(*bits),
            Event::Str(s) => EventView::Str(s@),
            Event::Bytes(b) => EventView::Bytes(b@),
        }
    }
}

/// The four classes by which a container routes an event.
#[derive(Clone, Copy, Debug, PartialEq, Eq, Structural)]
pub enum EventClass {
    Start,
    End,
    Marker,
    Value,
}

impl Event {
    /// The class of the event.
    pub fn class(&self) -> (c: EventClass)
        ensures
            (c == EventClass::Start) == self@.is_start(),
            (c == EventClass::End) == self@.is_end(),
            (c == EventClass::Marker) == self@.is_marker(),
            (c == EventClass::Value) == self@.is_value(),
    {
        match self {
            Event::StartList | Event::StartStruct | Event::StartTuple | Event::StartMap => {
                EventClass::Start
            },
            Event::EndList | Event::EndStruct | Event::EndTuple | Event::EndMap => {
                EventClass::End
            },
            Event::Variant(_, _) => EventClass::Marker,
            _ => EventClass::Value,
        }
    }

    /// The integer an integer event carries, whatever its width.
    pub fn int_value(&self) -> (r: Option<i128>)
        ensures
            match self@ {
                EventView::Int(_, v) => r == Some(v as i128) && r.unwrap() as int == v,
                _ => r is None,
            },
    {
        match self {
            Event::I8(v) => Some(*v as i128),
            Event::I16(v) => Some(*v as i128),
            Event::I32(v) => Some(*v as i128),
            Event::I64(v) => Some(*v as i128),
            Event::U8(v) => Some(*v as i128),
            Event::U16(v) => Some(*v as i128),
            Event::U32(v) => Some(*v as i128),
            Event::U64(v) => Some(*v as i128),
            _ => None,
        }
    }

    /// A copy of the event.
    pub fn duplicate(&self) -> (r: Event)
        ensures
            r@ == self@,
    {
        match self {
            Event::StartList => Event::StartList,
            Event::EndList => Event::EndList,
            Event::StartStruct => Event::StartStruct,
            Event::EndStruct => Event::EndStruct,
            Event::StartTuple => Event::StartTuple,
            Event::EndTuple => Event::EndTuple,
            Event::StartMap => Event::StartMap,
            Event::EndMap => Event::EndMap,
            Event::Variant(name, index) => Event::Variant(name.clone(), *index),
            Event::Null => Event::Null,
            Event::Default => Event::Default,
            Event::Bool(b) => Event::Bool(*b),
            Event::I8(v) => Event::I8(*v),
            Event::I16(v) => Event::I16(*v),
            Event::I32(v) => Event::I32(*v),
            Event::I64(v) => Event::I64(*v),
            Event::U8(v) => Event::U8(*v),
            Event::U16(v) => Event::U16(*v),
            Event::U32(v) => Event::U32(*v),
            Event::U64(v) => Event::U64(*v),
            Event::F32(bits) => Event::F32(*bits),
            Event::F64(bits) => Event::F64(*bits),
            Event::Str(s) => Event::Str(s.clone()),
            Event::Bytes(b) => Event::Bytes(b.clone()),
        }
    }
}

/// An integer event of the given width.
pub fn int_event(ty: IntType, value: i128) -> (r: Event)
    requires
        ty.holds(value as int),
    ensures
        r@ == EventView::Int(ty, value as int),
{
    match ty {
        IntType::I8 => Event::I8(value as i8),
        IntType::I16 => Event::I16(value as i16),
        IntType::I32 => Event::I32(value as i32),
        IntType::I64 => Event::I64(value as i64),
        IntType::U8 => Event::U8(value as u8),
        IntType::U16 => Event::U16(value as u16),
        IntType::U32 => Event::U32(value as u32),
        IntType::U64 => Event::U64(value as u64),
    }
}

/// What the events say, one by one.
pub open spec fn views(events: Seq<Event>) -> Seq<EventView> {
    Seq::new(events.len(), |i: int| events[i]@)
}

} // verus!
