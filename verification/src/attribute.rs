//! Attribute values: the typed encoding that the database stores.

use crate::text_map::{keys_distinct, lemma_entries_map_index, position_of, TextMap};
use vstd::prelude::*;

verus! {

/// The mathematical model of an attribute value: one optional slot per type
/// of the encoding.
pub struct SpecAttribute {
    /// Binary.
    pub b: Option<Seq<u8>>,
    /// Boolean.
    pub bool: Option<bool>,
    /// Binary set.
    pub bs: Option<Seq<Seq<u8>>>,
    /// List.
    pub l: Option<Seq<SpecAttribute>>,
    /// Map.
    pub m: Option<Map<Seq<char>, SpecAttribute>>,
    /// Number, as text.
    pub n: Option<Seq<char>>,
    /// Number set, each member as text.
    pub ns: Option<Seq<Seq<char>>>,
    /// Null marker.
    pub null: Option<bool>,
    /// String.
    pub s: Option<Seq<char>>,
    /// String set.
    pub ss: Option<Seq<Seq<char>>>,
}

/// A record's attributes: a mapping from attribute name to attribute value.
pub type FieldMap = TextMap<AttributeValue>;

/// An attribute value.
///
/// The encoding allows several slots to be populated at once; by convention
/// exactly one is.
#[derive(Debug, PartialEq, Eq)]
pub struct AttributeValue {
    /// Binary.
    pub b: Option<Vec<u8>>,
    /// Boolean.
    pub bool: Option<bool>,
    /// Binary set.
    pub bs: Option<Vec<Vec<u8>>>,
    /// List.
    pub l: Option<Vec<AttributeValue>>,
    /// Map.
    pub m: Option<TextMap<AttributeValue>>,
    /// Number, as text.
    pub n: Option<String>,
    /// Number set, each member as text.
    pub ns: Option<Vec<String>>,
    /// Null marker.
    pub null: Option<bool>,
    /// String.
    pub s: Option<String>,
    /// String set.
    pub ss: Option<Vec<String>>,
}

/// The bytes of each member of a list of byte strings.
pub open spec fn bytes_views(members: Seq<Vec<u8>>) -> Seq<Seq<u8>> {
    Seq::new(members.len(), |i: int| members[i]@)
}

/// The characters of each member of a list of strings.
pub open spec fn text_views(members: Seq<String>) -> Seq<Seq<char>> {
    Seq::new(members.len(), |i: int| members[i]@)
}

impl AttributeValue {
    /// The model of the attribute value: the model of what each slot holds.
    pub open spec fn model(self) -> SpecAttribute
        decreases self,
    {
        SpecAttribute {
            b: match self.b {
                Some(bytes) => Some(bytes@),
                None => None,
            },
            bool: self.bool,
            bs: match self.bs {
                Some(members) => Some(bytes_views(members@)),
                None => None,
            },
            l: match self.l {
                Some(items) => Some(
                    Seq::new(
                        items@.len(),
                        |i: int|
                            if 0 <= i < items@.len() {
                                items@[i].model()
                            } else {
                                SpecAttribute::empty()
                            },
                    ),
                ),
                None => None,
            },
            m: match self.m {
                Some(fields) => Some(
                    Map::new(
                        |key: Seq<char>| fields@.contains_key(key),
                        |key: Seq<char>|
                            if fields@.contains_key(key) {
                                proof {
                                    fields.lemma_value_decreases(key);
                                }
                                fields@[key].model()
                            } else {
                                SpecAttribute::empty()
                            },
                    ),
                ),
                None => None,
            },
            n: match self.n {
                Some(text) => Some(text@),
                None => None,
            },
            ns: match self.ns {
                Some(members) => Some(text_views(members@)),
                None => None,
            },
            null: self.null,
            s: match self.s {
                Some(text) => Some(text@),
                None => None,
            },
            ss: match self.ss {
                Some(members) => Some(text_views(members@)),
                None => None,
            },
        }
    }
}

impl View for AttributeValue {
    type V = SpecAttribute;

    open spec fn view(&self) -> SpecAttribute {
        self.model()
    }
}

/// The model of a field map: the model of each attribute value, under its
/// name.
pub open spec fn field_map_view(fields: FieldMap) -> Map<Seq<char>, SpecAttribute> {
    Map::new(|key: Seq<char>| fields@.contains_key(key), |key: Seq<char>| fields@[key]@)
}

impl SpecAttribute {
    /// The attribute value whose map slot holds `fields` and whose other
    /// slots are empty.
    pub open spec fn of_map(fields: Map<Seq<char>, SpecAttribute>) -> SpecAttribute {
        SpecAttribute { m: Some(fields), ..SpecAttribute::empty() }
    }

    /// The attribute value with no slot populated.
    pub open spec fn empty() -> SpecAttribute {
        SpecAttribute {
            b: None,
            bool: None,
            bs: None,
            l: None,
            m: None,
            n: None,
            ns: None,
            null: None,
            s: None,
            ss: None,
        }
    }

    /// The number of populated slots.
    pub open spec fn populated(self) -> nat {
        let b: nat = if self.b is Some { 1 } else { 0 };
        let bool: nat = if self.bool is Some { 1 } else { 0 };
        let bs: nat = if self.bs is Some { 1 } else { 0 };
        let l: nat = if self.l is Some { 1 } else { 0 };
        let m: nat = if self.m is Some { 1 } else { 0 };
        let n: nat = if self.n is Some { 1 } else { 0 };
        let ns: nat = if self.ns is Some { 1 } else { 0 };
        let null: nat = if self.null is Some { 1 } else { 0 };
        let s: nat = if self.s is Some { 1 } else { 0 };
        let ss: nat = if self.ss is Some { 1 } else { 0 };
        b + bool + bs + l + m + n + ns + null + s + ss
    }
}

impl SpecAttribute {
    /// Whether every map in the attribute value has finitely many entries,
    /// as the model of every `AttributeValue` has.
    pub open spec fn well_formed(self) -> bool
        decreases self,
    {
        &&& self.l matches Some(items) ==> forall|i: int|
            0 <= i < items.len() ==> (#[trigger] items[i]).well_formed()
        &&& self.m matches Some(fields) ==> fields.dom().finite() && forall|key: Seq<char>|
            fields.contains_key(key) ==> (#[trigger] fields[key]).well_formed()
    }

    /// Whether exactly one slot is populated, here and in every attribute
    /// value held in a list or a map of finitely many entries.
    pub open spec fn single_slot(self) -> bool
        decreases self,
    {
        &&& self.populated() == 1
        &&& self.l matches Some(items) ==> forall|i: int|
            0 <= i < items.len() ==> (#[trigger] items[i]).single_slot()
        &&& self.m matches Some(fields) ==> fields.dom().finite() && forall|key: Seq<char>|
            fields.contains_key(key) ==> (#[trigger] fields[key]).single_slot()
    }
}

impl AttributeValue {
    /// A copy with the same model.
    pub fn duplicate(&self) -> (copy: AttributeValue)
        ensures
            copy@ == self@,
        decreases self,
    {
        let copy = AttributeValue {
            b: match &self.b {
                Some(bytes) => Some(duplicate_bytes(bytes)),
                None => None,
            },
            bool: self.bool,
            bs: match &self.bs {
                Some(members) => Some(duplicate_binary_set(members)),
                None => None,
            },
            l: match &self.l {
                Some(items) => Some(duplicate_list(items)),
                None => None,
            },
            m: match &self.m {
                Some(fields) => Some(duplicate_map(fields)),
                None => None,
            },
            n: match &self.n {
                Some(text) => Some(text.clone()),
                None => None,
            },
            ns: match &self.ns {
                Some(members) => Some(duplicate_text_set(members)),
                None => None,
            },
            null: self.null,
            s: match &self.s {
                Some(text) => Some(text.clone()),
                None => None,
            },
            ss: match &self.ss {
                Some(members) => Some(duplicate_text_set(members)),
                None => None,
            },
        };
        proof {
            if self.bs is Some {
                assert(copy@.bs->0 =~= self@.bs->0);
            }
            if self.l is Some {
                assert(copy@.l->0 =~= self@.l->0);
            }
            if self.m is Some {
                assert(copy@.m->0 =~= self@.m->0);
            }
            if self.ns is Some {
                assert(copy@.ns->0 =~= self@.ns->0);
            }
            if self.ss is Some {
                assert(copy@.ss->0 =~= self@.ss->0);
            }
        }
        copy
    }
}

/// A copy of a byte string.
fn duplicate_bytes(bytes: &Vec<u8>) -> (copy: Vec<u8>)
    ensures
        copy@ == bytes@,
{
    let copy = bytes.clone();
    copy
}

/// Copies of the members of a binary set, in their order.
fn duplicate_binary_set(members: &Vec<Vec<u8>>) -> (copies: Vec<Vec<u8>>)
    ensures
        copies@.len() == members@.len(),
        forall|i: int| 0 <= i < members@.len() ==> (#[trigger] copies@[i])@ == members@[i]@,
{
    let mut copies: Vec<Vec<u8>> = Vec::new();
    let mut i: usize = 0;
    while i < members.len()
        invariant
            i <= members@.len(),
            copies@.len() == i,
            forall|j: int| 0 <= j < i ==> (#[trigger] copies@[j])@ == members@[j]@,
        decreases members@.len() - i,
    {
        copies.push(duplicate_bytes(&members[i]));
        i += 1;
    }
    copies
}

/// Copies of the members of a number set or a string set, in their order.
fn duplicate_text_set(members: &Vec<String>) -> (copies: Vec<String>)
    ensures
        copies@.len() == members@.len(),
        forall|i: int| 0 <= i < members@.len() ==> (#[trigger] copies@[i])@ == members@[i]@,
{
    let mut copies: Vec<String> = Vec::new();
    let mut i: usize = 0;
    while i < members.len()
        invariant
            i <= members@.len(),
            copies@.len() == i,
            forall|j: int| 0 <= j < i ==> (#[trigger] copies@[j])@ == members@[j]@,
        decreases members@.len() - i,
    {
        copies.push(members[i].clone());
        i += 1;
    }
    copies
}

/// Copies of the items of a list, in their order.
fn duplicate_list(items: &Vec<AttributeValue>) -> (copies: Vec<AttributeValue>)
    ensures
        copies@.len() == items@.len(),
        forall|i: int| 0 <= i < items@.len() ==> (#[trigger] copies@[i])@ == items@[i]@,
    decreases items,
{
    let mut copies: Vec<AttributeValue> = Vec::new();
    let mut i: usize = 0;
    while i < items.len()
        invariant
            i <= items@.len(),
            copies@.len() == i,
            forall|j: int| 0 <= j < i ==> (#[trigger] copies@[j])@ == items@[j]@,
        decreases items@.len() - i,
    {
        copies.push(items[i].duplicate());
        i += 1;
    }
    copies
}

/// Copies of the attribute values of a map, each under its name.
fn duplicate_map(fields: &FieldMap) -> (copies: FieldMap)
    ensures
        forall|key: Seq<char>| copies@.contains_key(key) <==> fields@.contains_key(key),
        forall|key: Seq<char>|
            fields@.contains_key(key) ==> (#[trigger] copies@[key])@ == fields@[key]@,
    decreases fields,
{
    let entries = fields.entries();
    let mut copies: FieldMap = TextMap::new();
    let mut i: usize = 0;
    while i < entries.len()
        invariant
            i <= entries@.len(),
            entries@ == fields.spec_entries(),
            keys_distinct(entries@),
            forall|key: Seq<char>|
                copies@.contains_key(key) <==> exists|j: int|
                    0 <= j < i && entries@[j].0@ == key,
            forall|j: int| 0 <= j < i ==> (#[trigger] copies@[entries@[j].0@])@ == entries@[j].1@,
        decreases entries@.len() - i,
    {
        proof {
            fields.lemma_entry_decreases(i as int);
        }
        copies.insert(entries[i].0.clone(), entries[i].1.duplicate());
        i += 1;
    }
    proof {
        assert forall|key: Seq<char>| fields@.contains_key(key) implies copies@.contains_key(key)
            && copies@[key]@ == fields@[key]@ by {
            let j = position_of(entries@, key);
            lemma_entries_map_index(entries@, j);
        }
    }
    copies
}

impl Clone for AttributeValue {
    fn clone(&self) -> (copy: Self)
        ensures
            copy@ == self@,
    {
        self.duplicate()
    }
}

impl Default for AttributeValue {
    /// The attribute value with no slot populated.
    fn default() -> (value: AttributeValue)
        ensures
            value@ == SpecAttribute::empty(),
    {
        AttributeValue {
            b: None,
            bool: None,
            bs: None,
            l: None,
            m: None,
            n: None,
            ns: None,
            null: None,
            s: None,
            ss: None,
        }
    }
}

} // verus!
