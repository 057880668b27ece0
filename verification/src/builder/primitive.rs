//! The builder of a primitive column.
use vstd::prelude::*;
use crate::array::{Array, Values};
use crate::error::{Error, Result};
use crate::event::{Event, Float};
use crate::model::{accepted, Model, Shape, Value};

verus! {

/// Builds a column of nulls, booleans, integers, floating point numbers or
/// strings. Every value is one event, so the builder is always at the start
/// of a value.
#[derive(Debug)]
pub struct PrimitiveBuilder {
    pub validity: Vec<bool>,
    pub values: Values,
}

impl PrimitiveBuilder {
    /// The buffers agree in length and hold values of the declared type.
    pub open spec fn wf(&self) -> bool {
        self.values.wf(self.validity.len() as nat)
    }

    /// The grammar of the column.
    pub open spec fn shape(&self) -> Shape {
        self.values.shape()
    }

    /// The rows built so far: where the validity flag is unset the row is
    /// absent, whatever the value buffer holds there.
    pub open spec fn rows(&self) -> Seq<Value> {
        Seq::new(
            self.validity.len() as nat,
            |i: int|
                if self.validity[i] {
                    self.values.value_at(i)
                } else {
                    Value::Null
                },
        )
    }

    /// The rows that are complete, and the value that is open.
    pub open spec fn model(&self) -> Model {
        Model { rows: self.rows(), partial: None }
    }

    /// An empty builder for the given kind of values.
    pub fn new(values: Values) -> (r: PrimitiveBuilder)
        ensures
            r.wf(),
            r.shape() == values.shape(),
            r.rows() == Seq::<Value>::empty(),
    {
        let r = PrimitiveBuilder { validity: Vec::new(), values: values.fresh() };
        assert(r.rows() =~= Seq::<Value>::empty());
        r
    }

    /// Appends one row whose validity is `valid` and whose value is the
    /// zero of the type.
    fn push_zero(&mut self, valid: bool)
        requires
            old(self).wf(),
        ensures
            final(self).wf(),
            final(self).shape() == old(self).shape(),
            final(self).rows() == old(self).rows().push(
                if valid {
                    old(self).shape().default_value()
                } else {
                    Value::Null
                },
            ),
    {
        self.values.push_zero();
        self.validity.push(valid && !matches!(self.values, Values::Null));
        assert(final(self).rows() =~= old(self).rows().push(
            if valid {
                old(self).shape().default_value()
            } else {
                Value::Null
            },
        ));
    }

    /// Reads one event. Integers of any width are accepted where they lie in
    /// the declared range, and floating point numbers of either width are
    /// accepted as they are.
    pub fn accept(&mut self, event: &Event) -> (r: Result<()>)
        requires
            old(self).wf(),
        ensures
            final(self).wf(),
            final(self).shape() == old(self).shape(),
            accepted(old(self).shape(), old(self).model(), event@, r, final(self).model()),
    {
        match event {
            Event::EndList | Event::EndStruct | Event::EndTuple | Event::EndMap => Err(
                Error::ProtocolViolation,
            ),
            Event::Null => {
                self.push_zero(false);
                Ok(())
            },
            Event::Default => {
                self.push_zero(true);
                Ok(())
            },
            _ => {
                let ghost before = self.rows();
                match &mut self.values {
                    Values::Null => Err(Error::TypeMismatch),
                    Values::Bool(values) => match event {
                        Event::Bool(b) => {
                            values.push(*b);
                            self.validity.push(true);
                            assert(self.rows() =~= before.push(Value::Bool(*b)));
                            Ok(())
                        },
                        _ => Err(Error::TypeMismatch),
                    },
                    Values::Int(ty, values) => match event.int_value() {
                        Some(v) => if ty.fits(v) {
                            values.push(v);
                            self.validity.push(true);
                            assert(self.rows() =~= before.push(Value::Int(v as int)));
                            Ok(())
                        } else {
                            Err(Error::EncodingError)
                        },
                        None => Err(Error::TypeMismatch),
                    },
                    Values::Float(_, values) => match event {
                        Event::F32(bits) => {
                            values.push(Float::F32(*bits));
                            self.validity.push(true);
                            assert(self.rows() =~= before.push(Value::F32(*bits)));
                            Ok(())
                        },
                        Event::F64(bits) => {
                            values.push(Float::F64(*bits));
                            self.validity.push(true);
                            assert(self.rows() =~= before.push(Value::F64(*bits)));
                            Ok(())
                        },
                        _ => Err(Error::TypeMismatch),
                    },
                    Values::Utf8(values) => match event {
                        Event::Str(s) => {
                            values.push(s.clone());
                            self.validity.push(true);
                            assert(self.rows() =~= before.push(Value::Str(s@)));
                            Ok(())
                        },
                        _ => Err(Error::TypeMismatch),
                    },
                }
            },
        }
    }

    /// Hands out the column built so far and starts a new, empty one.
    pub fn build_array(&mut self) -> (a: Array)
        requires
            old(self).wf(),
        ensures
            a.wf(),
            a.fits(old(self).shape()),
            a.rows() == old(self).rows(),
            final(self).wf(),
            final(self).shape() == old(self).shape(),
            final(self).rows() == Seq::<Value>::empty(),
    {
        let mut validity = Vec::new();
        let mut values = self.values.fresh();
        std::mem::swap(&mut validity, &mut self.validity);
        std::mem::swap(&mut values, &mut self.values);
        let a = Array::Primitive { validity, values };
        assert(a.rows() =~= old(self).rows());
        assert(self.rows() =~= Seq::<Value>::empty());
        a
    }
}

} // verus!
