//! Records built by a flat program instead of a tree of builders.
//!
//! Where every field of a record is a single event, the schema is lowered
//! to a program: a fixed cycle of instructions, each of which names the
//! instruction that follows it and the buffer slot it appends to. The
//! interpreter then reads an event by looking at one instruction, with no
//! descent through builders. It reads exactly what the struct builder
//! reads, and is held to the same model.
use vstd::prelude::*;
use crate::array::{lemma_columns, lemma_columns_fit, Array};
use crate::builder::dynamic::{accept_defaults, build_columns, DynamicArrayBuilder};
use crate::builder::factory::{build_array_builder, fresh};
use crate::error::{Error, Result};
use crate::event::{Event, EventView};
use crate::model::{
    accepted, begin, default_values, lemma_default_values, open_count, Model, Named, Partial, Shape,
    Value,
};
use crate::schema::{named_fields, record_shape, GenericDataType, GenericField};

verus! {

/// What an instruction does with the event it reads.
#[derive(Clone, Copy, Debug, PartialEq, Eq, Structural)]
pub enum Opcode {
    /// Between two records: `StartStruct` enters a record, `Null` and
    /// `Default` push a default into every slot.
    EnterRecord,
    /// The name of a field is awaited.
    FieldName,
    /// The value of a field is awaited: one event, pushed into the slot.
    PushValue,
    /// `EndStruct` leaves the record.
    LeaveRecord,
}

/// One step of a program: what to do, the buffer slot to do it on, the
/// instruction that follows, and the name that a `FieldName` awaits.
#[derive(Debug)]
pub struct Instruction {
    pub opcode: Opcode,
    pub slot: usize,
    pub next: usize,
    pub name: String,
}

/// Whether a value of the shape is one event.
pub open spec fn scalar(shape: Shape) -> bool {
    !(shape is List || shape is Record || shape is Mapping || shape is Union)
}

/// One event makes or fails a value of a scalar shape.
pub proof fn lemma_scalar(shape: Shape, event: EventView)
    requires
        scalar(shape),
    ensures
        !(begin(shape, event) is More),
        shape.height() == 0,
{
}

/// A program for records, with an empty buffer for every slot.
#[derive(Debug)]
pub struct Program {
    pub instructions: Vec<Instruction>,
    pub buffers: Vec<DynamicArrayBuilder>,
}

/// Whether the instructions are the cycle of a record of `count` fields:
/// the start of the record, then a name and a value for every field, then
/// the end of the record, which leads back to the start.
pub open spec fn cycle(instructions: Seq<Instruction>, count: int) -> bool {
    &&& instructions.len() == 2 * count + 2
    &&& instructions[0].opcode == Opcode::EnterRecord
    &&& instructions[0].next == 1
    &&& forall|j: int|
        0 <= j < count ==> {
            &&& (#[trigger] instructions[1 + 2 * j]).opcode == Opcode::FieldName
            &&& instructions[1 + 2 * j].next == 2 + 2 * j
        }
    &&& forall|j: int|
        0 <= j < count ==> {
            &&& (#[trigger] instructions[2 + 2 * j]).opcode == Opcode::PushValue
            &&& instructions[2 + 2 * j].slot == j
            &&& instructions[2 + 2 * j].next == 3 + 2 * j
        }
    &&& instructions[2 * count + 1].opcode == Opcode::LeaveRecord
    &&& instructions[2 * count + 1].next == 0
}

/// The name that the program awaits for the field with index `j`.
pub open spec fn field_name(instructions: Seq<Instruction>, j: int) -> Seq<char> {
    instructions[1 + 2 * j].name@
}

/// The fields that a program and its slots stand for.
pub open spec fn program_fields(
    instructions: Seq<Instruction>,
    slots: Seq<DynamicArrayBuilder>,
) -> Seq<Named> {
    Seq::new(
        slots.len(),
        |j: int| Named { name: field_name(instructions, j), shape: slots[j].shape() },
    )
}

impl Program {
    /// The instructions are the cycle of a record with one field per
    /// buffer, and every buffer is empty and holds scalars.
    pub open spec fn wf(&self) -> bool {
        &&& cycle(self.instructions@, self.buffers.len() as int)
        &&& forall|j: int|
            0 <= j < self.buffers.len() ==> fresh(
                #[trigger] self.buffers[j],
                self.buffers[j].shape(),
            ) && scalar(self.buffers[j].shape())
    }

    /// The shape of the records that the program reads.
    pub open spec fn shape(&self) -> Shape {
        Shape::Record { keyed: true, fields: program_fields(self.instructions@, self.buffers@) }
    }
}

/// Whether the field is a single event in the stream.
pub fn is_scalar(field: &GenericField) -> (r: bool)
    ensures
        r == scalar(field.shape()),
{
    !matches!(
        field.data_type,
        GenericDataType::Struct | GenericDataType::List | GenericDataType::LargeList
            | GenericDataType::Union | GenericDataType::Mapping
    )
}

/// Whether records of the fields can be lowered to a program: every field
/// is a single event and has a builder.
pub open spec fn compilable(fields: Seq<GenericField>) -> bool {
    &&& 2 * fields.len() + 2 <= usize::MAX
    &&& forall|j: int|
        0 <= j < fields.len() ==> scalar((#[trigger] fields[j]).shape()) && fields[j].supported()
}

/// Lowers the fields of a record to a program, with one buffer slot per
/// field.
///
/// Returns `None` where the compiler has no program for the schema: the
/// builder tree then reads the records.
pub fn compile_serialization(fields: &Vec<GenericField>) -> (r: Option<Program>)
    ensures
        match r {
            Some(program) => compilable(fields@) && program.wf() && program.shape()
                == record_shape(fields@),
            None => !compilable(fields@),
        },
{
    let n = fields.len();
    if n > (usize::MAX - 2) / 2 {
        return None;
    }
    let mut instructions: Vec<Instruction> = Vec::new();
    let mut buffers: Vec<DynamicArrayBuilder> = Vec::new();
    instructions.push(
        Instruction { opcode: Opcode::EnterRecord, slot: 0, next: 1, name: String::new() },
    );
    let mut k: usize = 0;
    while k < n
        invariant
            k <= n,
            n == fields.len(),
            2 * n + 2 <= usize::MAX,
            instructions.len() == 2 * k + 1,
            buffers.len() == k,
            instructions[0].opcode == Opcode::EnterRecord,
            instructions[0].next == 1,
            forall|j: int|
                0 <= j < k ==> {
                    &&& (#[trigger] instructions[1 + 2 * j]).opcode == Opcode::FieldName
                    &&& instructions[1 + 2 * j].next == 2 + 2 * j
                    &&& instructions[1 + 2 * j].name@ == fields[j].name@
                },
            forall|j: int|
                0 <= j < k ==> {
                    &&& (#[trigger] instructions[2 + 2 * j]).opcode == Opcode::PushValue
                    &&& instructions[2 + 2 * j].slot == j
                    &&& instructions[2 + 2 * j].next == 3 + 2 * j
                },
            forall|j: int|
                0 <= j < k ==> fresh(#[trigger] buffers[j], fields[j].shape()) && scalar(
                    fields[j].shape(),
                ) && fields[j].supported(),
        decreases n - k,
    {
        if !is_scalar(&fields[k]) {
            return None;
        }
        let buffer = match build_array_builder(&fields[k]) {
            Ok(buffer) => buffer,
            Err(_) => {
                return None;
            }};
        let ghost held = instructions@;
        instructions.push(
            Instruction {
                opcode: Opcode::FieldName,
                slot: k,
                next: 2 + 2 * k,
                name: fields[k].name.clone(),
            },
        );
        instructions.push(
            Instruction { opcode: Opcode::PushValue, slot: k, next: 3 + 2 * k, name: String::new() },
        );
        buffers.push(buffer);
        proof {
            assert forall|j: int| 0 <= j < k + 1 implies {
                &&& (#[trigger] instructions[1 + 2 * j]).opcode == Opcode::FieldName
                &&& instructions[1 + 2 * j].next == 2 + 2 * j
                &&& instructions[1 + 2 * j].name@ == fields[j].name@
            } by {
                if j < k {
                    assert(instructions[1 + 2 * j] == held[1 + 2 * j]);
                }
            }
            assert forall|j: int| 0 <= j < k + 1 implies {
                &&& (#[trigger] instructions[2 + 2 * j]).opcode == Opcode::PushValue
                &&& instructions[2 + 2 * j].slot == j
                &&& instructions[2 + 2 * j].next == 3 + 2 * j
            } by {
                if j < k {
                    assert(instructions[2 + 2 * j] == held[2 + 2 * j]);
                }
            }
        }
        k = k + 1;
    }
    let ghost held = instructions@;
    instructions.push(
        Instruction { opcode: Opcode::LeaveRecord, slot: 0, next: 0, name: String::new() },
    );
    let program = Program { instructions, buffers };
    proof {
        assert forall|j: int| 0 <= j < n implies {
            &&& (#[trigger] program.instructions[1 + 2 * j]).opcode == Opcode::FieldName
            &&& program.instructions[1 + 2 * j].next == 2 + 2 * j
            &&& program.instructions[1 + 2 * j].name@ == fields[j].name@
        } by {
            assert(program.instructions[1 + 2 * j] == held[1 + 2 * j]);
        }
        assert forall|j: int| 0 <= j < n implies {
            &&& (#[trigger] program.instructions[2 + 2 * j]).opcode == Opcode::PushValue
            &&& program.instructions[2 + 2 * j].slot == j
            &&& program.instructions[2 + 2 * j].next == 3 + 2 * j
        } by {
            assert(program.instructions[2 + 2 * j] == held[2 + 2 * j]);
        }
        assert(program.instructions[0] == held[0]);
        assert forall|j: int| 0 <= j < n implies field_name(program.instructions@, j)
            == fields[j].name@ by {
            assert(program.instructions[1 + 2 * j].opcode == Opcode::FieldName);
        }
        assert(program_fields(program.instructions@, program.buffers@) =~= named_fields(fields@));
        assert forall|j: int| 0 <= j < program.buffers.len() implies fresh(
            #[trigger] program.buffers[j],
            program.buffers[j].shape(),
        ) && scalar(program.buffers[j].shape()) by {
            assert(fresh(program.buffers[j], fields[j].shape()));
        }
        assert forall|j: int| 0 <= j < fields.len() implies scalar(
            (#[trigger] fields[j]).shape(),
        ) && fields[j].supported() by {
            assert(fresh(program.buffers[j], fields[j].shape()));
        }
    }
    Some(program)
}

/// Runs a program against the events of records: a program counter, the
/// buffer slots, and the validity of the records.
#[derive(Debug)]
pub struct Interpreter {
    pub instructions: Vec<Instruction>,
    pub slots: Vec<DynamicArrayBuilder>,
    pub validity: Vec<bool>,
    pub pc: usize,
}

impl Interpreter {
    /// An interpreter at the start of the program, with the program's
    /// empty buffers.
    pub fn new(program: Program) -> (r: Self)
        requires
            program.wf(),
        ensures
            r.wf(),
            r.shape() == program.shape(),
            r.rows() == Seq::<Value>::empty(),
            r.partial() is None,
    {
        let r = Interpreter {
            instructions: program.instructions,
            slots: program.buffers,
            validity: Vec::new(),
            pc: 0};
        proof {
            assert(r.fields() =~= program_fields(program.instructions@, program.buffers@));
            assert(r.rows() =~= Seq::<Value>::empty());
            assert forall|j: int| 0 <= j < r.slots.len() implies {
                &&& (#[trigger] r.slots[j]).wf()
                &&& r.slots[j].partial() is None
                &&& scalar(r.slots[j].shape())
                &&& r.slots[j].rows().len() == 0
            } by {
                assert(fresh(program.buffers[j], program.buffers[j].shape()));
            }
        }
        r
    }

    /// The number of fields that are complete in the open record.
    pub open spec fn active(&self) -> int {
        if self.pc == 0 {
            0
        } else {
            (self.pc - 1) / 2
        }
    }

    /// The fields of the records.
    pub open spec fn fields(&self) -> Seq<Named>
        decreases self, 0nat,
    {
        Seq::new(
            self.slots.len() as nat,
            |j: int|
                Named {
                    name: field_name(self.instructions@, j),
                    shape: if 0 <= j < self.slots.len() {
                        self.slots[j].shape()
                    } else {
                        Shape::Null
                    },
                },
        )
    }

    /// The grammar of the column.
    pub open spec fn shape(&self) -> Shape
        decreases self, 1nat,
    {
        Shape::Record { keyed: true, fields: self.fields() }
    }

    /// Row `i` of every slot.
    pub open spec fn cells(&self, i: int) -> Seq<Value>
        decreases self, 0nat,
    {
        Seq::new(
            self.slots.len() as nat,
            |j: int|
                if 0 <= j < self.slots.len() {
                    self.slots[j].rows()[i]
                } else {
                    Value::Null
                },
        )
    }

    /// The records that are complete.
    pub open spec fn rows(&self) -> Seq<Value>
        decreases self, 1nat,
    {
        Seq::new(
            self.validity.len() as nat,
            |i: int|
                if self.validity[i] {
                    Value::Record(self.cells(i))
                } else {
                    Value::Null
                },
        )
    }

    /// The record that is open: the program counter says how many fields
    /// are complete and whether a name or a value is awaited.
    pub open spec fn partial(&self) -> Option<Partial>
        decreases self, 1nat,
    {
        if self.pc == 0 {
            None
        } else {
            Some(
                Partial::Record {
                    done: self.cells(self.validity.len() as int).take(self.active()),
                    keyed: self.pc % 2 == 0,
                    inner: None,
                },
            )
        }
    }

    /// The rows that are complete, and the value that is open.
    pub open spec fn model(&self) -> Model {
        Model { rows: self.rows(), partial: self.partial() }
    }

    /// The instructions are the cycle of a record with one field per slot,
    /// the program counter is inside the program, every slot holds scalars
    /// and one row per complete record, and the slots of the fields that
    /// are complete in the open record hold one row more.
    pub open spec fn wf(&self) -> bool
        decreases self, 1nat,
    {
        &&& cycle(self.instructions@, self.slots.len() as int)
        &&& self.pc < self.instructions.len()
        &&& self.instructions.len() <= usize::MAX
        &&& forall|j: int|
            0 <= j < self.slots.len() ==> {
                &&& (#[trigger] self.slots[j]).wf()
                &&& self.slots[j].partial() is None
                &&& scalar(self.slots[j].shape())
                &&& self.slots[j].rows().len() == self.validity.len() + (if j < self.active() {
                    1nat
                } else {
                    0nat
                })
            }
    }

    /// No more containers are open than the shape nests.
    pub proof fn lemma_open_bounded(&self)
        requires
            self.wf(),
        ensures
            open_count(self.partial()) <= self.shape().height(),
    {
        reveal_with_fuel(open_count, 2);
    }

    /// Whether the interpreter is between two records.
    pub fn idle(&self) -> (r: bool)
        ensures
            r == (self.partial() is None),
    {
        self.pc == 0
    }

    /// Where the slots keep their first `upto` rows, the records keep the
    /// cells of those rows; where the validity flags are kept as well, the
    /// rows are kept.
    pub proof fn lemma_kept(&self, before: &Self, upto: int)
        requires
            self.slots.len() == before.slots.len(),
            0 <= upto,
            forall|j: int, i: int|
                0 <= j < self.slots.len() && 0 <= i < upto ==> (
                #[trigger] self.slots[j].rows()[i]) == before.slots[j].rows()[i],
        ensures
            forall|i: int| 0 <= i < upto ==> #[trigger] self.cells(i) == before.cells(i),
            self.validity.len() <= upto && self.validity@ == before.validity@ ==> self.rows()
                == before.rows(),
            before.validity.len() == upto && self.validity.len() == upto + 1
                && self.validity@.drop_last() == before.validity@ ==> self.rows()
                == before.rows().push(
                if self.validity@.last() {
                    Value::Record(self.cells(before.validity.len() as int))
                } else {
                    Value::Null
                },
            ),
    {
        assert forall|i: int| 0 <= i < upto implies #[trigger] self.cells(i) == before.cells(
            i,
        ) by {
            assert forall|j: int| 0 <= j < self.slots.len() implies self.cells(i)[j]
                == before.cells(i)[j] by {
                assert(self.slots[j].rows()[i] == before.slots[j].rows()[i]);
            }
            assert(self.cells(i) =~= before.cells(i));
        }
        if self.validity.len() <= upto && self.validity@ == before.validity@ {
            assert forall|i: int| 0 <= i < self.validity.len() implies self.rows()[i]
                == before.rows()[i] by {
                assert(self.cells(i) == before.cells(i));
            }
            assert(self.rows() =~= before.rows());
        }
        if before.validity.len() == upto && self.validity.len() == upto + 1
            && self.validity@.drop_last() == before.validity@ {
            let pushed = before.rows().push(
                if self.validity@.last() {
                    Value::Record(self.cells(before.validity.len() as int))
                } else {
                    Value::Null
                },
            );
            assert forall|i: int| 0 <= i < self.validity.len() implies self.rows()[i]
                == pushed[i] by {
                if i < before.validity.len() {
                    assert(self.cells(i) == before.cells(i));
                    assert(self.validity@.drop_last()[i] == self.validity@[i]);
                }
            }
            assert(self.rows() =~= pushed);
        }
    }

    /// Reads one event by the instruction at the program counter.
    ///
    /// The interpreter reads what the struct builder of the same fields
    /// reads, and fails where it fails.
    pub fn accept(&mut self, event: &Event) -> (r: Result<()>)
        requires
            old(self).wf(),
        ensures
            final(self).wf(),
            final(self).shape() == old(self).shape(),
            accepted(old(self).shape(), old(self).model(), event@, r, final(self).model()),
        decreases *old(self),
    {
        let n = self.slots.len();
        let ghost before = *self;
        let ghost last = self.validity.len() as int;
        let opcode = self.instructions[self.pc].opcode;
        let next = self.instructions[self.pc].next;
        let slot = self.instructions[self.pc].slot;
        proof {
            let j = before.active();
            if self.pc != 0 && self.pc != 2 * n + 1 {
                if self.pc % 2 == 1 {
                    assert(self.pc == 1 + 2 * j);
                    assert(self.instructions[1 + 2 * j].opcode == Opcode::FieldName);
                } else {
                    assert(self.pc == 2 + 2 * j);
                    assert(self.instructions[2 + 2 * j].opcode == Opcode::PushValue);
                }
            }
        }
        match opcode {
            Opcode::EnterRecord => match event {
                Event::StartStruct => {
                    self.pc = next;
                    proof {
                        assert(self.fields() =~= before.fields());
                        self.lemma_kept(&before, last);
                        assert(self.cells(last).take(0) =~= Seq::<Value>::empty());
                    }
                    Ok(())
                },
                Event::Null | Event::Default => {
                    let valid = matches!(event, Event::Default);
                    accept_defaults(&mut self.slots);
                    self.validity.push(valid);
                    proof {
                        assert(self.fields() =~= before.fields());
                        lemma_default_values(before.fields());
                        assert forall|j: int| 0 <= j < n implies self.cells(last)[j]
                            == default_values(before.fields())[j] by {
                            assert(before.fields()[j].shape == before.slots[j].shape());
                            assert(self.slots[j].rows() == before.slots[j].rows().push(
                                before.slots[j].shape().default_value(),
                            ));
                        }
                        assert(self.cells(last) =~= default_values(before.fields()));
                        assert forall|j: int, i: int|
                            0 <= j < self.slots.len() && 0 <= i < last implies (
                        #[trigger] self.slots[j].rows()[i]) == before.slots[j].rows()[i] by {
                            assert(self.slots[j].rows() == before.slots[j].rows().push(
                                before.slots[j].shape().default_value(),
                            ));
                        }
                        assert(self.validity@.drop_last() =~= before.validity@);
                        self.lemma_kept(&before, last);
                    }
                    Ok(())
                },
                Event::EndList | Event::EndStruct | Event::EndTuple | Event::EndMap => Err(
                    Error::ProtocolViolation,
                ),
                _ => Err(Error::TypeMismatch),
            },
            Opcode::FieldName => match event {
                Event::Str(name) => if *name == self.instructions[self.pc].name {
                    self.pc = next;
                    proof {
                        assert(self.fields() =~= before.fields());
                        self.lemma_kept(&before, last + 1);
                    }
                    Ok(())
                } else {
                    Err(Error::ProtocolViolation)
                },
                _ => Err(Error::ProtocolViolation),
            },
            Opcode::PushValue => {
                proof {
                    assert(before.fields()[slot as int].shape == before.slots[slot as int].shape());
                    lemma_scalar(before.slots[slot as int].shape(), event@);
                }
                match self.slots[slot].accept(event) {
                    Ok(()) => {},
                    Err(e) => {
                        proof {
                            assert(self.fields() =~= before.fields());
                            self.lemma_kept(&before, last + 1);
                        }
                        return Err(e);
                    },
                }
                self.pc = next;
                proof {
                    assert(self.fields() =~= before.fields());
                    self.lemma_kept(&before, last);
                    let child = self.slots[slot as int];
                    assert(self.cells(last).take(slot + 1) =~= before.cells(last).take(
                        slot as int,
                    ).push(child.rows()[last]));
                }
                Ok(())
            },
            Opcode::LeaveRecord => match event {
                Event::EndStruct => {
                    self.validity.push(true);
                    self.pc = next;
                    proof {
                        assert(self.fields() =~= before.fields());
                        assert(before.cells(last).take(n as int) =~= before.cells(last));
                        assert(self.validity@.drop_last() =~= before.validity@);
                        self.lemma_kept(&before, last);
                        assert(self.cells(last) =~= before.cells(last));
                    }
                    Ok(())
                },
                _ => Err(Error::ProtocolViolation),
            },
        }
    }

    /// Ends the batch: fails with `ProtocolViolation` where a record is
    /// open.
    pub fn finish(&mut self) -> (r: Result<()>)
        requires
            old(self).wf(),
        ensures
            final(self).wf(),
            final(self).shape() == old(self).shape(),
            final(self).model() == old(self).model(),
            r is Ok <==> old(self).partial() is None,
            r is Err ==> r == Err::<(), Error>(Error::ProtocolViolation),
    {
        if self.pc != 0 {
            return Err(Error::ProtocolViolation);
        }
        Ok(())
    }

    /// Hands out the records read so far as a column of structs and starts
    /// a new batch: the buffers are empty and the program is at its start.
    pub fn build_array(&mut self) -> (a: Array)
        requires
            old(self).wf(),
            old(self).partial() is None,
        ensures
            a.wf(),
            a.fits(old(self).shape()),
            a.rows() == old(self).rows(),
            final(self).wf(),
            final(self).shape() == old(self).shape(),
            final(self).rows() == Seq::<Value>::empty(),
            final(self).partial() is None,
        decreases *old(self),
    {
        let ghost before = *self;
        let columns = build_columns(&mut self.slots);
        let mut validity = Vec::new();
        std::mem::swap(&mut validity, &mut self.validity);
        let a = Array::Struct { validity, columns };
        proof {
            lemma_columns(columns@);
            lemma_columns_fit(columns@, before.fields());
            assert(self.fields() =~= before.fields());
            assert forall|j: int| 0 <= j < columns.len() implies (
            #[trigger] Array::column_rows(columns@)[j]) == before.slots[j].rows() by {
                assert(columns[j].wf());
            }
            assert forall|i: int| 0 <= i < before.validity.len() implies a.rows()[i]
                == before.rows()[i] by {
                assert(Seq::new(
                    columns.len() as nat,
                    |j: int| Array::column_rows(columns@)[j][i],
                ) =~= before.cells(i));
            }
            assert(a.rows() =~= before.rows());
            assert(self.rows() =~= Seq::<Value>::empty());
        }
        a
    }
}

} // verus!
