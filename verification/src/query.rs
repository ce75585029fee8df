use vstd::prelude::*;
use crate::property::Property;
use crate::property::PropertyMap;
use crate::property::Table;
use crate::property::Value;

verus! {

/// The value that a path of keys leads to: each key but the last must name
/// a nested map, in which the walk goes on; the last key names the value
/// that is returned, whatever its kind. An empty path leads nowhere.
pub open spec fn value_at(table: Table, path: Seq<Seq<char>>) -> Option<Value>
    decreases path.len(),
{
    if path.len() == 0 || !table.contains_key(path[0]) {
        None
    } else if path.len() == 1 {
        Some(table[path[0]])
    } else {
        match table[path[0]] {
            Value::Table(inner) => value_at(inner, path.drop_first()),
            _ => None,
        }
    }
}

/// The property that a path of keys leads to in a tree, as `value_at`
/// says it for values.
pub open spec fn node_at(tree: &PropertyMap, path: Seq<Seq<char>>) -> Option<Property>
    decreases path.len(),
{
    if path.len() == 0 {
        None
    } else {
        match tree.spec_get(path[0]) {
            None => None,
            Some(found) => if path.len() == 1 {
                Some(found)
            } else {
                match found {
                    Property::Table(inner) => node_at(&inner, path.drop_first()),
                    _ => None,
                }
            },
        }
    }
}

/// What a reference to a property refers to, if there is one.
pub open spec fn referred(found: Option<&Property>) -> Option<Property> {
    match found {
        Some(value) => Some(*value),
        None => None,
    }
}

/// What a property is, if there is one.
pub open spec fn viewed(found: Option<Property>) -> Option<Value> {
    match found {
        Some(value) => Some(value@),
        None => None,
    }
}

/// The keys that the segments of a path spell.
pub open spec fn keys_of(path: Seq<&str>) -> Seq<Seq<char>> {
    Seq::new(path.len(), |i: int| path[i]@)
}

/// The number under a value, where the value is a 32-bit number.
pub open spec fn as_uint32(value: Option<Value>) -> Option<u32> {
    match value {
        Some(Value::Uint32(number)) => Some(number),
        _ => None,
    }
}

/// The number under a value, where the value is a 64-bit number.
pub open spec fn as_uint64(value: Option<Value>) -> Option<u64> {
    match value {
        Some(Value::Uint64(number)) => Some(number),
        _ => None,
    }
}

/// The characters of a value, where the value is a text.
pub open spec fn as_text(value: Option<Value>) -> Option<Seq<char>> {
    match value {
        Some(Value::Text(text)) => Some(text),
        _ => None,
    }
}

/// The entries of a value, where the value is a map.
pub open spec fn as_table(value: Option<Value>) -> Option<Table> {
    match value {
        Some(Value::Table(table)) => Some(table),
        _ => None,
    }
}

/// Walks `tree` along `path` and returns the property that the path ends
/// at, or nothing where a key is missing, where a key other than the last
/// names a number or a text, or where the path is empty.
pub fn lookup<'a>(tree: &'a PropertyMap, path: &[&str]) -> (r: Option<&'a Property>)
    ensures
        referred(r) == node_at(tree, keys_of(path@)),
        viewed(referred(r)) == value_at(tree@, keys_of(path@)),
{
    if path.len() == 0 {
        return None;
    }
    let ghost keys = keys_of(path@);
    let mut cur: &PropertyMap = tree;
    let mut i: usize = 0;
    assert(keys.skip(0) =~= keys);
    loop
        invariant
            i < path@.len(),
            keys == keys_of(path@),
            value_at(tree@, keys) == value_at(cur@, keys.skip(i as int)),
            node_at(tree, keys) == node_at(cur, keys.skip(i as int)),
        decreases path@.len() - i,
    {
        let ghost rest = keys.skip(i as int);
        assert(rest[0] == path@[i as int]@);
        match cur.get(path[i]) {
            None => {
                return None;
            },
            Some(found) => {
                if i + 1 == path.len() {
                    return Some(found);
                }
                match found {
                    Property::Table(inner) => {
                        assert(rest.drop_first() =~= keys.skip(i + 1));
                        cur = inner;
                        i = i + 1;
                    },
                    _ => {
                        return None;
                    },
                }
            },
        }
    }
}

/// The 32-bit number that `path` leads to, or nothing where it leads
/// nowhere or to a value of another kind.
pub fn lookup_u32(tree: &PropertyMap, path: &[&str]) -> (r: Option<u32>)
    ensures
        r == as_uint32(value_at(tree@, keys_of(path@))),
{
    match lookup(tree, path) {
        Some(Property::Uint32(number)) => Some(*number),
        _ => None,
    }
}

/// The 64-bit number that `path` leads to, or nothing where it leads
/// nowhere or to a value of another kind.
pub fn lookup_u64(tree: &PropertyMap, path: &[&str]) -> (r: Option<u64>)
    ensures
        r == as_uint64(value_at(tree@, keys_of(path@))),
{
    match lookup(tree, path) {
        Some(Property::Uint64(number)) => Some(*number),
        _ => None,
    }
}

/// A copy of the text that `path` leads to, or nothing where it leads
/// nowhere or to a value of another kind.
pub fn lookup_string(tree: &PropertyMap, path: &[&str]) -> (r: Option<String>)
    ensures
        match r {
            Some(text) => as_text(value_at(tree@, keys_of(path@))) == Some(text@),
            None => as_text(value_at(tree@, keys_of(path@))) is None,
        },
{
    match lookup(tree, path) {
        Some(Property::String(text)) => Some(text.clone()),
        _ => None,
    }
}

/// The nested map that `path` leads to, or nothing where it leads nowhere
/// or to a value of another kind.
pub fn lookup_map<'a>(tree: &'a PropertyMap, path: &[&str]) -> (r: Option<&'a PropertyMap>)
    ensures
        match r {
            Some(inner) => as_table(value_at(tree@, keys_of(path@))) == Some(inner@),
            None => as_table(value_at(tree@, keys_of(path@))) is None,
        },
{
    match lookup(tree, path) {
        Some(Property::Table(inner)) => Some(inner),
        _ => None,
    }
}

} // verus!
