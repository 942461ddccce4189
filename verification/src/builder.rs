//! Field maps and name maps out of lists of pairs.

use crate::attribute::{field_map_view, FieldMap, SpecAttribute};
use crate::encoding::{encode_spec, json_to_attribute_value};
use crate::text_map::TextMap;
use crate::value::{SpecValue, Value};
use vstd::prelude::*;

verus! {

/// The models of a list of named values.
pub open spec fn pairs_view(pairs: Seq<(String, Value)>) -> Seq<(Seq<char>, SpecValue)> {
    Seq::new(pairs.len(), |i: int| (pairs[i].0@, pairs[i].1@))
}

/// The field map that a list of named values builds: each value encoded and
/// inserted under its name, in the order of the list, so that of two values
/// under one name the later one stays.
pub open spec fn fields_spec(pairs: Seq<(Seq<char>, SpecValue)>) -> Map<Seq<char>, SpecAttribute>
    decreases pairs.len(),
{
    if pairs.len() == 0 {
        Map::empty()
    } else {
        fields_spec(pairs.drop_last()).insert(pairs.last().0, encode_spec(pairs.last().1))
    }
}

/// Builds a field map from a list of named values. Each value is encoded by
/// itself; a name that occurs again overwrites the earlier entry.
pub fn fields(pairs: &Vec<(String, Value)>) -> (map: FieldMap)
    ensures
        field_map_view(map) == fields_spec(pairs_view(pairs@)),
{
    let mut map: FieldMap = TextMap::new();
    let mut i: usize = 0;
    while i < pairs.len()
        invariant
            i <= pairs@.len(),
            field_map_view(map) == fields_spec(pairs_view(pairs@).take(i as int)),
        decreases pairs@.len() - i,
    {
        let key = pairs[i].0.clone();
        let attribute = json_to_attribute_value(&pairs[i].1);
        map.insert(key, attribute);
        proof {
            let models = pairs_view(pairs@);
            assert(models.take(i + 1).drop_last() =~= models.take(i as int));
        }
        i += 1;
    }
    assert(pairs_view(pairs@).take(pairs@.len() as int) =~= pairs_view(pairs@));
    map
}

/// The characters of each name and of what it stands for.
pub open spec fn names_view(pairs: Seq<(String, String)>) -> Seq<(Seq<char>, Seq<char>)> {
    Seq::new(pairs.len(), |i: int| (pairs[i].0@, pairs[i].1@))
}

/// The plain text of each value of a name map, under its key.
pub open spec fn name_map_view(map: TextMap<String>) -> Map<Seq<char>, Seq<char>> {
    Map::new(|key: Seq<char>| map@.contains_key(key), |key: Seq<char>| map@[key]@)
}

/// The name map that a list of pairs builds: each pair inserted in the order
/// of the list, so that of two pairs under one key the later one stays.
pub open spec fn names_spec(pairs: Seq<(Seq<char>, Seq<char>)>) -> Map<Seq<char>, Seq<char>>
    decreases pairs.len(),
{
    if pairs.len() == 0 {
        Map::empty()
    } else {
        names_spec(pairs.drop_last()).insert(pairs.last().0, pairs.last().1)
    }
}

/// Builds a mapping from text to text out of a list of pairs, as placeholders
/// for attribute names are written. Nothing is encoded; a key that occurs
/// again overwrites the earlier entry.
pub fn names(pairs: &Vec<(String, String)>) -> (map: TextMap<String>)
    ensures
        name_map_view(map) == names_spec(names_view(pairs@)),
{
    let mut map: TextMap<String> = TextMap::new();
    let mut i: usize = 0;
    while i < pairs.len()
        invariant
            i <= pairs@.len(),
            name_map_view(map) == names_spec(names_view(pairs@).take(i as int)),
        decreases pairs@.len() - i,
    {
        let key = pairs[i].0.clone();
        let name = pairs[i].1.clone();
        map.insert(key, name);
        proof {
            let models = names_view(pairs@);
            assert(models.take(i + 1).drop_last() =~= models.take(i as int));
        }
        i += 1;
    }
    assert(names_view(pairs@).take(pairs@.len() as int) =~= names_view(pairs@));
    map
}

} // verus!
