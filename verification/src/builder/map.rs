//! The builder of a column of maps.
use vstd::prelude::*;
use crate::array::{entries, map_rows, monotone, Array};
use crate::builder::dynamic::DynamicArrayBuilder;
use crate::error::{Error, Result};
use crate::event::{Event, EventClass};
use crate::model::{accepted, lemma_advance_depth, open_count, Model, Partial, Shape, Value};

verus! {

/// Where a map builder stands.
#[derive(Debug, Clone, Copy, PartialEq, Eq, Structural)]
pub enum MapArrayBuilderState {
    /// Between two maps.
    Start,
    /// Inside a map, before or inside a key, with this number of containers
    /// open inside the key.
    Key(usize),
    /// Inside the value of an entry, with this number of containers open
    /// inside the value.
    Value(usize),
}

/// Builds a column of maps: a list of entries whose keys and values lie in
/// two builders, side by side.
#[derive(Debug)]
pub struct MapArrayBuilder<B> {
    pub key_builder: Box<B>,
    pub val_builder: Box<B>,
    pub offsets: Vec<usize>,
    pub validity: Vec<bool>,
    pub state: MapArrayBuilderState,
    pub finished: bool,
}

impl<B> MapArrayBuilder<B> {
    /// A builder at the start of its first map.
    pub fn new(key_builder: B, val_builder: B) -> (r: Self)
        ensures
            *r.key_builder == key_builder,
            *r.val_builder == val_builder,
            r.offsets@ == seq![0usize],
            r.validity@ == Seq::<bool>::empty(),
            r.state == MapArrayBuilderState::Start,
            !r.finished,
    {
        let mut offsets = Vec::new();
        offsets.push(0);
        assert(offsets@ =~= seq![0usize]);
        Self {
            key_builder: Box::new(key_builder),
            val_builder: Box::new(val_builder),
            offsets,
            validity: Vec::new(),
            state: MapArrayBuilderState::Start,
            finished: false,
        }
    }
}

/// Rows do not change where keys and values are appended, and one more
/// offset and validity flag append one row.
pub proof fn lemma_map_rows(
    validity: Seq<bool>,
    offsets: Seq<usize>,
    keys: Seq<Value>,
    values: Seq<Value>,
    more_keys: Seq<Value>,
    more_values: Seq<Value>,
)
    requires
        offsets.len() == validity.len() + 1,
        monotone(offsets),
        offsets.last() <= keys.len(),
        offsets.last() <= values.len(),
    ensures
        map_rows(validity, offsets, keys + more_keys, values + more_values) == map_rows(
            validity,
            offsets,
            keys,
            values,
        ),
        forall|valid: bool, end: usize|
            offsets.last() <= end ==> #[trigger] map_rows(
                validity.push(valid),
                offsets.push(end),
                keys,
                values,
            ) == map_rows(validity, offsets, keys, values).push(
                if valid {
                    Value::Mapping(entries(keys, values, offsets.last() as int, end as int))
                } else {
                    Value::Null
                },
            ),
{
    assert forall|i: int| 0 <= i < validity.len() implies map_rows(
        validity,
        offsets,
        keys + more_keys,
        values + more_values,
    )[i] == map_rows(validity, offsets, keys, values)[i] by {
        assert(offsets[i + 1] <= offsets.last());
        assert(offsets[i] <= offsets[i + 1]);
        assert(entries(
            keys + more_keys,
            values + more_values,
            offsets[i] as int,
            offsets[i + 1] as int,
        ) =~= entries(keys, values, offsets[i] as int, offsets[i + 1] as int));
    }
    assert(map_rows(validity, offsets, keys + more_keys, values + more_values) =~= map_rows(
        validity,
        offsets,
        keys,
        values,
    ));
    assert forall|valid: bool, end: usize| offsets.last() <= end implies #[trigger] map_rows(
        validity.push(valid),
        offsets.push(end),
        keys,
        values,
    ) == map_rows(validity, offsets, keys, values).push(
        if valid {
            Value::Mapping(entries(keys, values, offsets.last() as int, end as int))
        } else {
            Value::Null
        },
    ) by {
        assert(map_rows(validity.push(valid), offsets.push(end), keys, values) =~= map_rows(
            validity,
            offsets,
            keys,
            values,
        ).push(
            if valid {
                Value::Mapping(entries(keys, values, offsets.last() as int, end as int))
            } else {
                Value::Null
            },
        ));
    }
}

impl MapArrayBuilder<DynamicArrayBuilder> {
    /// The grammar of the column.
    pub open spec fn shape(&self) -> Shape
        decreases self,
    {
        Shape::Mapping(Box::new(self.key_builder.shape()), Box::new(self.val_builder.shape()))
    }

    /// The maps that are complete.
    pub open spec fn rows(&self) -> Seq<Value>
        decreases self,
    {
        map_rows(self.validity@, self.offsets@, self.key_builder.rows(), self.val_builder.rows())
    }

    /// The entries of the open map that are complete.
    pub open spec fn open_entries(&self) -> Seq<(Value, Value)>
        decreases self,
    {
        entries(
            self.key_builder.rows(),
            self.val_builder.rows(),
            self.offsets@.last() as int,
            self.val_builder.rows().len() as int,
        )
    }

    /// The map that is open.
    pub open spec fn partial(&self) -> Option<Partial>
        decreases self,
    {
        match self.state {
            MapArrayBuilderState::Start => None,
            MapArrayBuilderState::Key(depth) => Some(
                Partial::Mapping {
                    entries: self.open_entries(),
                    key: None,
                    inner: match self.key_builder.partial() {
                        Some(p) => Some(Box::new(p)),
                        None => None,
                    },
                },
            ),
            MapArrayBuilderState::Value(depth) => Some(
                Partial::Mapping {
                    entries: self.open_entries(),
                    key: Some(self.key_builder.rows().last()),
                    inner: match self.val_builder.partial() {
                        Some(p) => Some(Box::new(p)),
                        None => None,
                    },
                },
            ),
        }
    }

    /// The rows that are complete, and the value that is open.
    pub open spec fn model(&self) -> Model {
        Model { rows: self.rows(), partial: self.partial() }
    }

    /// There is one offset more than there are maps, the offsets never
    /// decrease, and there are as many keys as values, but for the key of
    /// an entry whose value is awaited.
    pub open spec fn wf(&self) -> bool
        decreases self,
    {
        &&& self.key_builder.wf()
        &&& self.val_builder.wf()
        &&& self.shape().height() <= usize::MAX
        &&& self.offsets.len() == self.validity.len() + 1
        &&& monotone(self.offsets@)
        &&& self.offsets@.last() <= self.val_builder.rows().len()
        &&& match self.state {
            MapArrayBuilderState::Start => {
                &&& self.offsets@.last() == self.val_builder.rows().len()
                &&& self.key_builder.rows().len() == self.val_builder.rows().len()
                &&& self.key_builder.partial() is None
                &&& self.val_builder.partial() is None
            },
            MapArrayBuilderState::Key(depth) => {
                &&& self.key_builder.rows().len() == self.val_builder.rows().len()
                &&& self.val_builder.partial() is None
                &&& depth == open_count(self.key_builder.partial())
            },
            MapArrayBuilderState::Value(depth) => {
                &&& self.key_builder.rows().len() == self.val_builder.rows().len() + 1
                &&& self.key_builder.partial() is None
                &&& depth == open_count(self.val_builder.partial())
            },
        }
    }

    /// The batch is ended: `finish` has marked the builder and every
    /// builder below it, and no column was built since.
    pub open spec fn ended(&self) -> bool
        decreases self,
    {
        self.finished && self.key_builder.ended() && self.val_builder.ended()
    }

    /// No more containers are open than the shape nests.
    pub proof fn lemma_open_bounded(&self)
        requires
            self.wf(),
        ensures
            open_count(self.partial()) <= self.shape().height(),
        decreases self,
    {
        reveal_with_fuel(open_count, 2);
        self.key_builder.lemma_open_bounded();
        self.val_builder.lemma_open_bounded();
    }

    /// Whether the builder is between two maps.
    pub fn idle(&self) -> (r: bool)
        ensures
            r == (self.partial() is None),
    {
        matches!(self.state, MapArrayBuilderState::Start)
    }

    /// Reads one event.
    ///
    /// `StartMap` and `EndMap` delimit a map as the list boundaries delimit
    /// a list; between them every entry is one key followed by one value.
    pub fn accept(&mut self, event: &Event) -> (r: Result<()>)
        requires
            old(self).wf(),
        ensures
            final(self).wf(),
            final(self).shape() == old(self).shape(),
            final(self).finished == old(self).finished,
            accepted(old(self).shape(), old(self).model(), event@, r, final(self).model()),
        decreases *old(self),
    {
        let ghost before = *self;
        let ghost start = self.offsets@.last() as int;
        proof {
            lemma_map_rows(
                self.validity@,
                self.offsets@,
                self.key_builder.rows().take(self.val_builder.rows().len() as int),
                self.val_builder.rows(),
                Seq::<Value>::empty(),
                Seq::<Value>::empty(),
            );
            lemma_map_rows(
                self.validity@,
                self.offsets@,
                self.key_builder.rows(),
                self.val_builder.rows(),
                Seq::<Value>::empty(),
                Seq::<Value>::empty(),
            );
        }
        match self.state {
            MapArrayBuilderState::Start => match event {
                Event::StartMap => {
                    self.state = MapArrayBuilderState::Key(0);
                    assert(self.open_entries() =~= Seq::<(Value, Value)>::empty());
                    Ok(())
                },
                Event::Null | Event::Default => {
                    let end = self.offsets[self.offsets.len() - 1];
                    self.offsets.push(end);
                    self.validity.push(matches!(event, Event::Default));
                    assert(entries(
                        self.key_builder.rows(),
                        self.val_builder.rows(),
                        end as int,
                        end as int,
                    ) =~= Seq::<(Value, Value)>::empty());
                    Ok(())
                },
                Event::EndList | Event::EndStruct | Event::EndTuple | Event::EndMap => Err(
                    Error::ProtocolViolation,
                ),
                _ => Err(Error::TypeMismatch),
            },
            MapArrayBuilderState::Key(depth) => {
                if matches!(event, Event::EndMap) && self.key_builder.idle() {
                    let end = self.val_builder.len();
                    self.offsets.push(end);
                    self.validity.push(true);
                    self.state = MapArrayBuilderState::Start;
                    return Ok(());
                }
                let class = event.class();
                proof {
                    lemma_advance_depth(
                        before.key_builder.shape(),
                        before.key_builder.partial(),
                        event@,
                    );
                }
                match self.key_builder.accept(event) {
                    Ok(()) => {},
                    Err(e) => {
                        return Err(e);
                    },
                }
                proof {
                    self.key_builder.lemma_open_bounded();
                    assert(self.open_entries() =~= before.open_entries());
                    if self.key_builder.rows() != before.key_builder.rows() {
                        let k = self.key_builder.rows().last();
                        assert(self.key_builder.rows() =~= before.key_builder.rows() + seq![k]);
                        lemma_map_rows(
                            self.validity@,
                            self.offsets@,
                            before.key_builder.rows(),
                            before.val_builder.rows(),
                            seq![k],
                            Seq::<Value>::empty(),
                        );
                        assert(before.val_builder.rows() + Seq::<Value>::empty()
                            =~= before.val_builder.rows());
                    }
                }
                self.state = match class {
                    EventClass::Start => MapArrayBuilderState::Key(depth + 1),
                    EventClass::End => if depth == 1 {
                        MapArrayBuilderState::Value(0)
                    } else {
                        MapArrayBuilderState::Key(depth - 1)
                    },
                    EventClass::Value => if depth == 0 {
                        MapArrayBuilderState::Value(0)
                    } else {
                        MapArrayBuilderState::Key(depth)
                    },
                    EventClass::Marker => MapArrayBuilderState::Key(depth),
                };
                Ok(())
            },
            MapArrayBuilderState::Value(depth) => {
                let class = event.class();
                proof {
                    lemma_advance_depth(
                        before.val_builder.shape(),
                        before.val_builder.partial(),
                        event@,
                    );
                }
                match self.val_builder.accept(event) {
                    Ok(()) => {},
                    Err(e) => {
                        return Err(e);
                    },
                }
                proof {
                    self.val_builder.lemma_open_bounded();
                    if self.val_builder.rows() != before.val_builder.rows() {
                        let v = self.val_builder.rows().last();
                        let k = self.key_builder.rows().last();
                        let keys = before.key_builder.rows().drop_last();
                        assert(self.val_builder.rows() =~= before.val_builder.rows() + seq![v]);
                        assert(self.key_builder.rows() =~= keys + seq![k]);
                        lemma_map_rows(
                            self.validity@,
                            self.offsets@,
                            keys,
                            before.val_builder.rows(),
                            seq![k],
                            seq![v],
                        );
                        lemma_map_rows(
                            self.validity@,
                            self.offsets@,
                            keys,
                            before.val_builder.rows(),
                            seq![k],
                            Seq::<Value>::empty(),
                        );
                        assert(before.val_builder.rows() + Seq::<Value>::empty()
                            =~= before.val_builder.rows());
                        assert(self.open_entries() =~= before.open_entries().push((k, v)));
                    } else {
                        assert(self.open_entries() =~= before.open_entries());
                    }
                }
                self.state = match class {
                    EventClass::Start => MapArrayBuilderState::Value(depth + 1),
                    EventClass::End => if depth == 1 {
                        MapArrayBuilderState::Key(0)
                    } else {
                        MapArrayBuilderState::Value(depth - 1)
                    },
                    EventClass::Value => if depth == 0 {
                        MapArrayBuilderState::Key(0)
                    } else {
                        MapArrayBuilderState::Value(depth)
                    },
                    EventClass::Marker => MapArrayBuilderState::Value(depth),
                };
                Ok(())
            },
        }
    }

    /// Ends the batch, and that of the keys and of the values: fails
    /// with `ProtocolViolation` where a map is open.
    pub fn finish(&mut self) -> (r: Result<()>)
        requires
            old(self).wf(),
        ensures
            final(self).wf(),
            final(self).shape() == old(self).shape(),
            final(self).model() == old(self).model(),
            r is Ok <==> old(self).partial() is None,
            r is Err ==> r == Err::<(), Error>(Error::ProtocolViolation) && final(self).finished
                == old(self).finished,
            r is Ok ==> final(self).ended(),
        decreases *old(self),
    {
        if !matches!(self.state, MapArrayBuilderState::Start) {
            return Err(Error::ProtocolViolation);
        }
        let _ = self.key_builder.finish();
        let _ = self.val_builder.finish();
        self.finished = true;
        Ok(())
    }

    /// Hands out the column built so far and starts a new, empty one. No
    /// value may be open.
    pub fn build_array(&mut self) -> (a: Array)
        requires
            old(self).wf(),
            old(self).partial() is None,
        ensures
            a.wf(),
            a.fits(old(self).shape()),
            a.rows() == old(self).rows(),
            final(self).wf(),
            final(self).shape() == old(self).shape(),
            final(self).rows() == Seq::<Value>::empty(),
            final(self).partial() is None,
        decreases *old(self),
    {
        let keys = self.key_builder.build_array();
        let entries = self.val_builder.build_array();
        let mut validity = Vec::new();
        let mut offsets = Vec::new();
        offsets.push(0);
        std::mem::swap(&mut validity, &mut self.validity);
        std::mem::swap(&mut offsets, &mut self.offsets);
        self.finished = false;
        let a = Array::Mapping {
            validity,
            offsets,
            keys: Box::new(keys),
            entries: Box::new(entries),
        };
        assert(self.rows() =~= Seq::<Value>::empty());
        a
    }
}

} // verus!
