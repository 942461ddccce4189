//! Generic structured values: null, booleans, numbers, text, arrays and
//! objects.

use crate::number::Number;
use crate::text_map::{keys_distinct, lemma_entries_map_index, position_of, TextMap};
use vstd::prelude::*;

verus! {

/// The mathematical model of a generic value.
pub enum SpecValue {
    Null,
    Bool(bool),
    /// A number, by its canonical text.
    Number(Seq<char>),
    String(Seq<char>),
    Array(Seq<SpecValue>),
    Object(Map<Seq<char>, SpecValue>),
}

/// A generic structured value.
#[derive(Debug, PartialEq, Eq)]
pub enum Value {
    Null,
    Bool(bool),
    Number(Number),
    String(String),
    Array(Vec<Value>),
    Object(TextMap<Value>),
}

impl Value {
    /// The model of the value: arrays as sequences, objects as mappings.
    pub open spec fn model(self) -> SpecValue
        decreases self,
    {
        match self {
            Value::Null => SpecValue::Null,
            Value::Bool(b) => SpecValue::Bool(b),
            Value::Number(n) => SpecValue::Number(n@),
            Value::String(s) => SpecValue::String(s@),
            Value::Array(items) => SpecValue::Array(
                Seq::new(
                    items@.len(),
                    |i: int|
                        if 0 <= i < items@.len() {
                            items@[i].model()
                        } else {
                            SpecValue::Null
                        },
                ),
            ),
            Value::Object(fields) => SpecValue::Object(
                Map::new(
                    |key: Seq<char>| fields@.contains_key(key),
                    |key: Seq<char>|
                        if fields@.contains_key(key) {
                            proof {
                                fields.lemma_value_decreases(key);
                            }
                            fields@[key].model()
                        } else {
                            SpecValue::Null
                        },
                ),
            ),
        }
    }
}

impl View for Value {
    type V = SpecValue;

    open spec fn view(&self) -> SpecValue {
        self.model()
    }
}

impl Value {
    /// A copy with the same model.
    pub fn duplicate(&self) -> (copy: Value)
        ensures
            copy@ == self@,
        decreases self,
    {
        match self {
            Value::Null => Value::Null,
            Value::Bool(b) => Value::Bool(*b),
            Value::Number(n) => Value::Number(n.clone()),
            Value::String(s) => Value::String(s.clone()),
            Value::Array(items) => {
                let copy = Value::Array(duplicate_items(items));
                assert(copy@->Array_0 =~= self@->Array_0);
                copy
            },
            Value::Object(fields) => {
                let copy = Value::Object(duplicate_fields(fields));
                assert(copy@->Object_0 =~= self@->Object_0);
                copy
            },
        }
    }
}

/// Copies of the items of an array, in their order.
fn duplicate_items(items: &Vec<Value>) -> (copies: Vec<Value>)
    ensures
        copies@.len() == items@.len(),
        forall|i: int| 0 <= i < items@.len() ==> (#[trigger] copies@[i])@ == items@[i]@,
    decreases items,
{
    let mut copies: Vec<Value> = Vec::new();
    let mut i: usize = 0;
    while i < items.len()
        invariant
            i <= items@.len(),
            copies@.len() == i,
            forall|j: int| 0 <= j < i ==> (#[trigger] copies@[j])@ == items@[j]@,
        decreases items@.len() - i,
    {
        copies.push(items[i].duplicate());
        i += 1;
    }
    copies
}

/// Copies of the values of an object, each under its key.
fn duplicate_fields(fields: &TextMap<Value>) -> (copies: TextMap<Value>)
    ensures
        forall|key: Seq<char>| copies@.contains_key(key) <==> fields@.contains_key(key),
        forall|key: Seq<char>|
            fields@.contains_key(key) ==> (#[trigger] copies@[key])@ == fields@[key]@,
    decreases fields,
{
    let entries = fields.entries();
    let mut copies: TextMap<Value> = TextMap::new();
    let mut i: usize = 0;
    while i < entries.len()
        invariant
            i <= entries@.len(),
            entries@ == fields.spec_entries(),
            keys_distinct(entries@),
            forall|key: Seq<char>|
                copies@.contains_key(key) <==> exists|j: int|
                    0 <= j < i && entries@[j].0@ == key,
            forall|j: int| 0 <= j < i ==> (#[trigger] copies@[entries@[j].0@])@ == entries@[j].1@,
        decreases entries@.len() - i,
    {
        proof {
            fields.lemma_entry_decreases(i as int);
        }
        copies.insert(entries[i].0.clone(), entries[i].1.duplicate());
        i += 1;
    }
    proof {
        assert forall|key: Seq<char>| fields@.contains_key(key) implies copies@.contains_key(key)
            && copies@[key]@ == fields@[key]@ by {
            let j = position_of(entries@, key);
            lemma_entries_map_index(entries@, j);
        }
    }
    copies
}

impl Clone for Value {
    fn clone(&self) -> (copy: Self)
        ensures
            copy@ == self@,
    {
        self.duplicate()
    }
}

impl SpecValue {
    /// Whether every object in the value has finitely many entries, as the
    /// model of every `Value` has.
    pub open spec fn well_formed(self) -> bool
        decreases self,
    {
        match self {
            SpecValue::Array(items) => forall|i: int|
                0 <= i < items.len() ==> (#[trigger] items[i]).well_formed(),
            SpecValue::Object(fields) => fields.dom().finite() && forall|key: Seq<char>|
                fields.contains_key(key) ==> (#[trigger] fields[key]).well_formed(),
            _ => true,
        }
    }
}

} // verus!
