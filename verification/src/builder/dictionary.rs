//! The builder of a dictionary-encoded string column.
use vstd::prelude::*;
use crate::array::Array;
use crate::error::{Error, Result};
use crate::event::Event;
use crate::model::{accepted, Model, Shape, Value};

verus! {

/// Whether no string occurs twice.
pub open spec fn distinct(values: Seq<String>) -> bool {
    forall|a: int, b: int|
        0 <= a < values.len() && 0 <= b < values.len() && a != b ==> values[a]@ != values[b]@
}

/// The texts of the strings.
pub open spec fn texts(values: Seq<String>) -> Seq<Seq<char>> {
    Seq::new(values.len(), |k: int| values[k]@)
}

/// The index of `text` among `values`, or their number where it is not
/// among them.
pub fn position(values: &Vec<String>, text: &String) -> (k: usize)
    ensures
        k <= values.len(),
        k < values.len() ==> values[k as int]@ == text@,
        forall|a: int| 0 <= a < k ==> values[a]@ != text@,
{
    let mut k: usize = 0;
    while k < values.len()
        invariant
            k <= values.len(),
            forall|a: int| 0 <= a < k ==> values[a]@ != text@,
        decreases values.len() - k,
    {
        if values[k] == *text {
            return k;
        }
        k = k + 1;
    }
    k
}

/// Builds a string column as keys into a table of distinct strings. A
/// string enters the table when it is first seen, so the table lists the
/// strings in the order in which they first occurred.
#[derive(Debug)]
pub struct DictionaryUtf8ArrayBuilder {
    pub validity: Vec<bool>,
    pub keys: Vec<usize>,
    pub values: Vec<String>,
}

impl DictionaryUtf8ArrayBuilder {
    /// The grammar of the column.
    pub open spec fn shape(&self) -> Shape {
        Shape::Dictionary
    }

    /// The table of distinct strings.
    pub open spec fn dictionary(&self) -> Seq<Seq<char>> {
        texts(self.values@)
    }

    /// The rows built so far: the string that the key names, or an absent
    /// value where the validity flag is unset.
    pub open spec fn rows(&self) -> Seq<Value> {
        Seq::new(
            self.validity.len() as nat,
            |i: int|
                if self.validity[i] {
                    Value::Str(self.values[self.keys[i] as int]@)
                } else {
                    Value::Null
                },
        )
    }

    /// The rows that are complete, and the value that is open.
    pub open spec fn model(&self) -> Model {
        Model { rows: self.rows(), partial: None }
    }

    /// Every row has a key, the key of a present row names an entry of the
    /// table, and no string occurs twice in the table.
    pub open spec fn wf(&self) -> bool {
        &&& self.keys.len() == self.validity.len()
        &&& forall|i: int|
            0 <= i < self.keys.len() && self.validity[i] ==> (#[trigger] self.keys[i])
                < self.values.len()
        &&& distinct(self.values@)
    }

    /// An empty builder.
    pub fn new() -> (r: Self)
        ensures
            r.wf(),
            r.rows() == Seq::<Value>::empty(),
            r.dictionary() == Seq::<Seq<char>>::empty(),
    {
        let r = DictionaryUtf8ArrayBuilder {
            validity: Vec::new(),
            keys: Vec::new(),
            values: Vec::new(),
        };
        assert(r.rows() =~= Seq::<Value>::empty());
        assert(r.dictionary() =~= Seq::<Seq<char>>::empty());
        r
    }

    /// Appends a present row that holds `text`.
    fn intern(&mut self, text: &String)
        requires
            old(self).wf(),
        ensures
            final(self).wf(),
            final(self).rows() == old(self).rows().push(Value::Str(text@)),
            final(self).dictionary() == if old(self).dictionary().contains(text@) {
                old(self).dictionary()
            } else {
                old(self).dictionary().push(text@)
            },
    {
        let ghost before = *self;
        let k = position(&self.values, text);
        if k == self.values.len() {
            self.values.push(text.clone());
        }
        self.keys.push(k);
        self.validity.push(true);
        proof {
            if k == before.values.len() {
                assert forall|a: int| 0 <= a < before.dictionary().len() implies
                    before.dictionary()[a] != text@ by {
                    assert(before.values[a]@ != text@);
                }
                assert(self.dictionary() =~= before.dictionary().push(text@));
            } else {
                assert(before.dictionary()[k as int] == text@);
                assert(self.dictionary() =~= before.dictionary());
            }
            assert(self.rows() =~= before.rows().push(Value::Str(text@)));
        }
    }

    /// Reads one event: a string, an absent value, or `Default`, which
    /// stands for the empty string.
    pub fn accept(&mut self, event: &Event) -> (r: Result<()>)
        requires
            old(self).wf(),
        ensures
            final(self).wf(),
            accepted(old(self).shape(), old(self).model(), event@, r, final(self).model()),
            final(self).dictionary() == match event@ {
                crate::event::EventView::Str(s) => if old(self).dictionary().contains(s) {
                    old(self).dictionary()
                } else {
                    old(self).dictionary().push(s)
                },
                crate::event::EventView::Default => if old(self).dictionary().contains(
                    Seq::empty(),
                ) {
                    old(self).dictionary()
                } else {
                    old(self).dictionary().push(Seq::empty())
                },
                _ => old(self).dictionary(),
            },
    {
        let ghost before = *self;
        match event {
            Event::EndList | Event::EndStruct | Event::EndTuple | Event::EndMap => Err(
                Error::ProtocolViolation,
            ),
            Event::Null => {
                self.keys.push(0);
                self.validity.push(false);
                assert(self.rows() =~= before.rows().push(Value::Null));
                Ok(())
            },
            Event::Default => {
                let empty = String::new();
                self.intern(&empty);
                Ok(())
            },
            Event::Str(s) => {
                self.intern(s);
                Ok(())
            },
            _ => Err(Error::TypeMismatch),
        }
    }

    /// Hands out the column built so far and starts a new, empty one.
    pub fn build_array(&mut self) -> (a: Array)
        requires
            old(self).wf(),
        ensures
            a.wf(),
            a.fits(old(self).shape()),
            a.rows() == old(self).rows(),
            a matches Array::Dictionary { validity, indices, dictionary } && texts(dictionary@)
                == old(self).dictionary() && distinct(dictionary@),
            final(self).wf(),
            final(self).rows() == Seq::<Value>::empty(),
            final(self).dictionary() == Seq::<Seq<char>>::empty(),
    {
        let mut validity = Vec::new();
        let mut indices = Vec::new();
        let mut dictionary = Vec::new();
        std::mem::swap(&mut validity, &mut self.validity);
        std::mem::swap(&mut indices, &mut self.keys);
        std::mem::swap(&mut dictionary, &mut self.values);
        let a = Array::Dictionary { validity, indices, dictionary };
        assert(a.rows() =~= old(self).rows());
        assert(self.rows() =~= Seq::<Value>::empty());
        assert(self.dictionary() =~= Seq::<Seq<char>>::empty());
        a
    }
}

} // verus!
