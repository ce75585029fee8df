use vstd::prelude::*;
use crate::cursor::has_bytes;
use crate::cursor::le_u32_at;
use crate::cursor::le_u64_at;
use crate::cursor::terminator_bounds;
use crate::cursor::text_at;
use crate::error::DecodeError;
use crate::cursor;
use crate::property::Property;
use crate::property::PropertyMap;
use crate::property::Table;
use crate::property::Value;

verus! {

/// Tag of an entry that opens a nested map.
pub const TAG_BEGIN: u8 = 0x00;

/// Tag of an entry that holds a text.
pub const TAG_TEXT: u8 = 0x01;

/// Tag of an entry that holds a 32-bit number.
pub const TAG_UINT32: u8 = 0x02;

/// Tag of an entry that holds a 64-bit number.
pub const TAG_UINT64: u8 = 0x07;

/// Tag that closes the map that is open.
pub const TAG_END: u8 = 0x08;

/// A decoded map and the place just past its closing tag, or the error
/// that ended decoding.
pub type TreeResult = Result<(Table, int), DecodeError>;

/// A decoded entry: its key, its value and the place just past it.
pub type EntryResult = Result<(Seq<char>, Value, int), DecodeError>;

/// The rest of a map whose entries so far are `acc`: the entries from
/// `pos` on are written to `acc` in turn, up to the closing tag.
///
/// The test on `next` serves the termination argument alone: an entry
/// always ends past its tag and inside the buffer (`entry_advances`).
pub open spec fn tree_at(s: Seq<u8>, pos: int, acc: Table) -> TreeResult
    decreases s.len() - pos, 1int,
{
    if !has_bytes(s, pos, 1) {
        Err(DecodeError::Truncated)
    } else if s[pos] == TAG_END {
        Ok((acc, pos + 1))
    } else {
        match entry_at(s, pos) {
            Err(e) => Err(e),
            Ok((key, value, next)) => if pos < next <= s.len() {
                tree_at(s, next, acc.insert(key, value))
            } else {
                Err(DecodeError::Truncated)
            },
        }
    }
}

/// The entry whose tag stands at `pos`: a key, and after it a text, a
/// number, or the entries of a nested map with its closing tag.
pub open spec fn entry_at(s: Seq<u8>, pos: int) -> EntryResult
    decreases s.len() - pos, 0int,
{
    if !has_bytes(s, pos, 1) {
        Err(DecodeError::Truncated)
    } else if s[pos] != TAG_BEGIN && s[pos] != TAG_TEXT && s[pos] != TAG_UINT32 && s[pos]
        != TAG_UINT64 {
        Err(DecodeError::UnknownTagKind)
    } else {
        match text_at(s, pos + 1) {
            Err(e) => Err(e),
            Ok((key, after_key)) => if s[pos] == TAG_BEGIN {
                proof {
                    terminator_bounds(s, pos + 1);
                }
                match tree_at(s, after_key, Map::empty()) {
                    Err(e) => Err(e),
                    Ok((nested, next)) => Ok((key, Value::Table(nested), next)),
                }
            } else if s[pos] == TAG_TEXT {
                match text_at(s, after_key) {
                    Err(e) => Err(e),
                    Ok((text, next)) => Ok((key, Value::Text(text), next)),
                }
            } else if s[pos] == TAG_UINT32 {
                if has_bytes(s, after_key, 4) {
                    Ok((key, Value::Uint32(le_u32_at(s, after_key) as u32), after_key + 4))
                } else {
                    Err(DecodeError::Truncated)
                }
            } else {
                if has_bytes(s, after_key, 8) {
                    Ok((key, Value::Uint64(le_u64_at(s, after_key) as u64), after_key + 8))
                } else {
                    Err(DecodeError::Truncated)
                }
            },
        }
    }
}

/// A map that decodes ends past the place where it starts, inside the
/// buffer.
pub proof fn tree_advances(s: Seq<u8>, pos: int, acc: Table)
    ensures
        tree_at(s, pos, acc) matches Ok(done) ==> pos < done.1 <= s.len(),
    decreases s.len() - pos, 1int,
{
    if has_bytes(s, pos, 1) && s[pos] != TAG_END {
        entry_advances(s, pos);
        match entry_at(s, pos) {
            Err(e) => {},
            Ok((key, value, next)) => {
                tree_advances(s, next, acc.insert(key, value));
            },
        }
    }
}

/// An entry that decodes ends past its tag, inside the buffer.
pub proof fn entry_advances(s: Seq<u8>, pos: int)
    ensures
        entry_at(s, pos) matches Ok(done) ==> pos < done.2 <= s.len(),
    decreases s.len() - pos, 0int,
{
    if has_bytes(s, pos, 1) {
        terminator_bounds(s, pos + 1);
        match text_at(s, pos + 1) {
            Err(e) => {},
            Ok((key, after_key)) => {
                if s[pos] == TAG_BEGIN {
                    tree_advances(s, after_key, Map::empty());
                } else if s[pos] == TAG_TEXT {
                    terminator_bounds(s, after_key);
                }
            },
        }
    }
}

/// After an entry, a map goes on with that entry written to it: the test
/// on the entry's end in `tree_at` never fails.
pub proof fn tree_step(s: Seq<u8>, pos: int, acc: Table)
    requires
        has_bytes(s, pos, 1),
        s[pos] != TAG_END,
    ensures
        tree_at(s, pos, acc) == match entry_at(s, pos) {
            Err(e) => Err::<(Table, int), DecodeError>(e),
            Ok((key, value, next)) => tree_at(s, next, acc.insert(key, value)),
        },
{
    entry_advances(s, pos);
}

/// What decoding comes to once the map that is open at `pos`, with the
/// entries `cur` so far, is closed and written into the maps around it.
/// Each frame holds the entries of an enclosing map and the key under
/// which the map inside it belongs; the last frame is the innermost.
pub open spec fn resume(s: Seq<u8>, frames: Seq<(Seq<char>, Table)>, cur: Table, pos: int)
    -> TreeResult
    decreases frames.len(),
{
    match tree_at(s, pos, cur) {
        Err(e) => Err(e),
        Ok((done, next)) => if frames.len() == 0 {
            Ok((done, next))
        } else {
            resume(
                s,
                frames.drop_last(),
                frames.last().1.insert(frames.last().0, Value::Table(done)),
                next,
            )
        },
    }
}

/// The enclosing maps of a decoder's stack, as `resume` reads them.
pub open spec fn frames_of(stack: Seq<(String, PropertyMap)>) -> Seq<(Seq<char>, Table)> {
    Seq::new(stack.len(), |i: int| (stack[i].0@, stack[i].1@))
}

/// Decodes the tagged entries of one map, nested maps included, up to the
/// tag that closes it, and moves the cursor past that tag. On an error the
/// cursor stays where it was.
///
/// The maps that are open are kept on a stack: a tag that opens a map
/// pushes the map around it, and a closing tag writes the finished map
/// into the one popped. Decoding ends with the closing tag that finds the
/// stack empty.
pub fn decode_tree(buf: &[u8], pos: &mut usize) -> (r: Result<PropertyMap, DecodeError>)
    ensures
        match r {
            Ok(tree) => tree_at(buf@, *old(pos) as int, Map::empty()) == Ok::<
                (Table, int),
                DecodeError,
            >((tree@, *final(pos) as int)),
            Err(e) => tree_at(buf@, *old(pos) as int, Map::empty()) == Err::<
                (Table, int),
                DecodeError,
            >(e) && *final(pos) == *old(pos),
        },
{
    let ghost start = *pos as int;
    let mut at: usize = *pos;
    let mut stack: Vec<(String, PropertyMap)> = Vec::new();
    let mut cur = PropertyMap::new();
    assert(frames_of(stack@) =~= Seq::empty());
    loop
        invariant
            *pos == start,
            *old(pos) == start,
            resume(buf@, frames_of(stack@), cur@, at as int) == tree_at(
                buf@,
                start,
                Map::empty(),
            ),
        decreases buf@.len() - at,
    {
        let ghost here = at as int;
        let ghost frames = frames_of(stack@);
        let ghost before = cur@;
        proof {
            tree_advances(buf@, here, before);
            entry_advances(buf@, here);
            terminator_bounds(buf@, here + 1);
        }
        let tag = match cursor::u8(buf, &mut at) {
            Ok(tag) => tag,
            Err(e) => {
                return Err(e);
            },
        };
        if tag == TAG_END {
            match stack.pop() {
                None => {
                    *pos = at;
                    return Ok(cur);
                },
                Some((key, parent)) => {
                    let mut parent = parent;
                    parent.insert(key, Property::Table(cur));
                    cur = parent;
                    proof {
                        assert(frames_of(stack@) =~= frames.drop_last());
                    }
                },
            }
        } else if tag == TAG_BEGIN {
            let key = match cursor::string(buf, &mut at) {
                Ok(key) => key,
                Err(e) => {
                    return Err(e);
                },
            };
            proof {
                let pushed = frames.push((key@, before));
                assert(pushed.drop_last() =~= frames);
                assert(frames_of(stack@.push((key, cur))) =~= pushed);
                tree_advances(buf@, at as int, Map::empty());
                match tree_at(buf@, at as int, Map::empty()) {
                    Err(e) => {},
                    Ok((nested, next)) => {
                        let around = before.insert(key@, Value::Table(nested));
                        assert(resume(buf@, pushed, Map::empty(), at as int) == resume(
                            buf@,
                            frames,
                            around,
                            next,
                        ));
                        assert(tree_at(buf@, here, before) == tree_at(buf@, next, around));
                    },
                }
                assert(resume(buf@, pushed, Map::empty(), at as int) == resume(
                    buf@,
                    frames,
                    before,
                    here,
                ));
            }
            stack.push((key, cur));
            cur = PropertyMap::new();
        } else if tag == TAG_TEXT {
            let key = match cursor::string(buf, &mut at) {
                Ok(key) => key,
                Err(e) => {
                    return Err(e);
                },
            };
            proof {
                terminator_bounds(buf@, at as int);
            }
            let text = match cursor::string(buf, &mut at) {
                Ok(text) => text,
                Err(e) => {
                    return Err(e);
                },
            };
            cur.insert(key, Property::String(text));
        } else if tag == TAG_UINT32 {
            let key = match cursor::string(buf, &mut at) {
                Ok(key) => key,
                Err(e) => {
                    return Err(e);
                },
            };
            let number = match cursor::le_u32(buf, &mut at) {
                Ok(number) => number,
                Err(e) => {
                    return Err(e);
                },
            };
            cur.insert(key, Property::Uint32(number));
        } else if tag == TAG_UINT64 {
            let key = match cursor::string(buf, &mut at) {
                Ok(key) => key,
                Err(e) => {
                    return Err(e);
                },
            };
            let number = match cursor::le_u64(buf, &mut at) {
                Ok(number) => number,
                Err(e) => {
                    return Err(e);
                },
            };
            cur.insert(key, Property::Uint64(number));
        } else {
            return Err(DecodeError::UnknownTagKind);
        }
    }
}

} // verus!
