use vstd::prelude::*;
use crate::cursor;
use crate::cursor::has_bytes;
use crate::cursor::le_u32_at;
use crate::error::DecodeError;
use crate::header::header_of;
use crate::header::read_header;
use crate::header::HEADER_LEN;
pub use crate::property::Property;
use crate::property::PropertyMap;
use crate::property::Table;
use crate::property::Value;
use crate::query;
use crate::query::as_table;
use crate::query::as_text;
use crate::query::as_uint32;
use crate::query::keys_of;
use crate::query::node_at;
use crate::query::referred;
use crate::query::viewed;
use crate::query::value_at;
use crate::render;
use crate::render::formatted;
use crate::render::found_lines;
use crate::render::listing;
use crate::render::texts;
use crate::tree::decode_tree;
use crate::tree::tree_at;
use crate::tree::tree_advances;

verus! {

/// The signature in the header of a package cache.
pub const PACKAGE_MAGIC: u16 = 0x5556;

/// The id that ends the records of a package cache.
pub const PACKAGE_SENTINEL: u32 = 0xFFFF_FFFF;

/// The version tag under which a package record has the longer preamble.
pub const LONG_PREAMBLE_VERSION: u8 = 0x28;

/// One record of the package cache.
#[derive(Debug)]
pub struct PackageInfo {
    pub id: u32,
    pub change_no: u32,
    pub props: PropertyMap,
}

/// What a package record holds, apart from how it is stored.
pub struct PackageRecord {
    pub id: u32,
    pub change_no: u32,
    pub props: Table,
}

impl View for PackageInfo {
    type V = PackageRecord;

    open spec fn view(&self) -> PackageRecord {
        PackageRecord { id: self.id, change_no: self.change_no, props: self.props@ }
    }
}

/// How many bytes of a package record stand between its id and its change
/// number: 28 under the version tag 0x28, 20 under the others.
pub open spec fn preamble_len(version: u8) -> int {
    if version == LONG_PREAMBLE_VERSION {
        28
    } else {
        20
    }
}

/// The map under the one key of a tree that has one key and a map under
/// it. A package record's tree is wrapped in this way; any other tree is
/// refused.
pub open spec fn unwrapped(raw: Table) -> Result<Table, DecodeError> {
    if raw.dom().finite() && raw.dom().len() == 1 {
        match raw[raw.dom().choose()] {
            Value::Table(inner) => Ok(inner),
            _ => Err(DecodeError::MalformedWrapper),
        }
    } else {
        Err(DecodeError::MalformedWrapper)
    }
}

/// The record of the package `id` whose preamble starts at `pos`, with
/// the place just past its tree: the preamble, which is skipped, the
/// change number, and the tree, which is unwrapped.
pub open spec fn package_record_at(s: Seq<u8>, pos: int, id: u32, version: u8) -> Result<
    (PackageRecord, int),
    DecodeError,
> {
    let skip = preamble_len(version);
    if !has_bytes(s, pos, skip + 4) {
        Err(DecodeError::Truncated)
    } else {
        match tree_at(s, pos + skip + 4, Map::empty()) {
            Err(e) => Err(e),
            Ok((raw, end)) => match unwrapped(raw) {
                Err(e) => Err(e),
                Ok(props) => Ok(
                    (
                        PackageRecord { id, change_no: le_u32_at(s, pos + skip) as u32, props },
                        end,
                    ),
                ),
            },
        }
    }
}

/// The records that stand from `pos` on, up to the id 0xFFFFFFFF that
/// ends them. No length is given: the next id stands where the tree of
/// the record before it ends.
///
/// The test on `next` serves the termination argument alone: a record
/// always ends past its start and inside the buffer.
pub open spec fn package_records_at(s: Seq<u8>, pos: int, version: u8) -> Result<
    Seq<PackageRecord>,
    DecodeError,
>
    decreases s.len() - pos,
{
    if !has_bytes(s, pos, 4) {
        Err(DecodeError::Truncated)
    } else if le_u32_at(s, pos) == PACKAGE_SENTINEL {
        Ok(Seq::empty())
    } else {
        match package_record_at(s, pos + 4, le_u32_at(s, pos) as u32, version) {
            Err(e) => Err(e),
            Ok((record, next)) => if pos < next <= s.len() {
                match package_records_at(s, next, version) {
                    Err(e) => Err(e),
                    Ok(rest) => Ok(seq![record] + rest),
                }
            } else {
                Err(DecodeError::Truncated)
            },
        }
    }
}

/// The records of a package cache: a header with the signature 0x5556,
/// then the records, laid out as the header's version tag says.
pub open spec fn package_cache_of(s: Seq<u8>) -> Result<Seq<PackageRecord>, DecodeError> {
    match header_of(s, PACKAGE_MAGIC) {
        Err(e) => Err(e),
        Ok(version) => package_records_at(s, HEADER_LEN as int, version),
    }
}

/// The records that a list of decoded records stands for.
pub open spec fn package_records_of(infos: Seq<PackageInfo>) -> Seq<PackageRecord> {
    Seq::new(infos.len(), |i: int| infos[i]@)
}

/// What decoding comes to when `done` has been decoded and `rest` is what
/// the records after them come to.
pub open spec fn package_records_after(
    done: Seq<PackageRecord>,
    rest: Result<Seq<PackageRecord>, DecodeError>,
) -> Result<Seq<PackageRecord>, DecodeError> {
    match rest {
        Err(e) => Err(e),
        Ok(more) => Ok(done + more),
    }
}

/// A record that decodes ends past the place where it starts, inside the
/// buffer.
pub proof fn package_record_advances(s: Seq<u8>, pos: int, id: u32, version: u8)
    requires
        0 <= pos,
    ensures
        package_record_at(s, pos, id, version) matches Ok(done) ==> pos < done.1 <= s.len(),
{
    tree_advances(s, pos + preamble_len(version) + 4, Map::empty());
}

/// After a record, the records go on where that record ends: the test on
/// the record's end in `package_records_at` never fails.
pub proof fn package_records_step(s: Seq<u8>, pos: int, version: u8)
    requires
        has_bytes(s, pos, 4),
        le_u32_at(s, pos) != PACKAGE_SENTINEL,
    ensures
        package_records_at(s, pos, version) == match package_record_at(
            s,
            pos + 4,
            le_u32_at(s, pos) as u32,
            version,
        ) {
            Err(e) => Err::<Seq<PackageRecord>, DecodeError>(e),
            Ok((record, next)) => match package_records_at(s, next, version) {
                Err(e) => Err(e),
                Ok(rest) => Ok(seq![record] + rest),
            },
        },
{
    package_record_advances(s, pos + 4, le_u32_at(s, pos) as u32, version);
}

/// A cache that holds nothing but a header in order and, right after it,
/// the id that ends the records decodes to no record and no error.
pub proof fn empty_package_cache(s: Seq<u8>)
    requires
        header_of(s, PACKAGE_MAGIC) is Ok,
        has_bytes(s, HEADER_LEN as int, 4),
        le_u32_at(s, HEADER_LEN as int) == PACKAGE_SENTINEL,
    ensures
        package_cache_of(s) == Ok::<Seq<PackageRecord>, DecodeError>(Seq::empty()),
{
}

/// Takes the wrapper off a package record's tree: the tree must have one
/// key, and a map under it, which is returned.
pub fn unwrap_tree(raw: PropertyMap) -> (r: Result<PropertyMap, DecodeError>)
    ensures
        match r {
            Ok(props) => unwrapped(raw@) == Ok::<Table, DecodeError>(props@),
            Err(e) => unwrapped(raw@) == Err::<Table, DecodeError>(e),
        },
{
    match raw.take_only() {
        Some((key, Property::Table(inner))) => {
            proof {
                assert(raw@.dom() =~= set![key@]);
                assert(raw@.dom().contains(raw@.dom().choose()));
            }
            Ok(inner)
        },
        Some((key, _)) => {
            proof {
                assert(raw@.dom() =~= set![key@]);
                assert(raw@.dom().contains(raw@.dom().choose()));
            }
            Err(DecodeError::MalformedWrapper)
        },
        None => Err(DecodeError::MalformedWrapper),
    }
}

/// Decodes the record of the package `id` whose preamble starts at the
/// cursor, and moves the cursor past the record's tree. On an error the
/// cursor stays where it was.
pub fn parse_package_info(id: u32, version: u8, buf: &[u8], pos: &mut usize) -> (r: Result<
    PackageInfo,
    DecodeError,
>)
    ensures
        match r {
            Ok(info) => package_record_at(buf@, *old(pos) as int, id, version) == Ok::<
                (PackageRecord, int),
                DecodeError,
            >((info@, *final(pos) as int)),
            Err(e) => package_record_at(buf@, *old(pos) as int, id, version) == Err::<
                (PackageRecord, int),
                DecodeError,
            >(e) && *final(pos) == *old(pos),
        },
{
    let skip: usize = if version == LONG_PREAMBLE_VERSION {
        28
    } else {
        20
    };
    let start = *pos;
    if start > buf.len() || buf.len() - start < skip + 4 {
        return Err(DecodeError::Truncated);
    }
    let mut at: usize = start + skip;
    let change_no = match cursor::le_u32(buf, &mut at) {
        Ok(change_no) => change_no,
        Err(e) => {
            return Err(e);
        },
    };
    let raw = match decode_tree(buf, &mut at) {
        Ok(raw) => raw,
        Err(e) => {
            return Err(e);
        },
    };
    let props = match unwrap_tree(raw) {
        Ok(props) => props,
        Err(e) => {
            return Err(e);
        },
    };
    *pos = at;
    Ok(PackageInfo { id, change_no, props })
}

impl PackageInfo {
    /// Decodes a package cache: checks the header, then decodes record
    /// after record up to the id 0xFFFFFFFF. Any error ends the load: no
    /// part of the records is returned.
    pub fn load(buf: &[u8]) -> (r: Result<Vec<PackageInfo>, DecodeError>)
        ensures
            match r {
                Ok(infos) => package_cache_of(buf@) == Ok::<Seq<PackageRecord>, DecodeError>(
                    package_records_of(infos@),
                ),
                Err(e) => package_cache_of(buf@) == Err::<Seq<PackageRecord>, DecodeError>(e),
            },
    {
        let version = match read_header(buf, PACKAGE_MAGIC) {
            Ok(version) => version,
            Err(e) => {
                return Err(e);
            },
        };
        let mut pos: usize = HEADER_LEN;
        let mut infos: Vec<PackageInfo> = Vec::new();
        assert(package_records_of(infos@) =~= Seq::empty());
        loop
            invariant
                HEADER_LEN <= pos <= buf@.len(),
                package_cache_of(buf@) == package_records_after(
                    package_records_of(infos@),
                    package_records_at(buf@, pos as int, version),
                ),
            decreases buf@.len() - pos,
        {
            let ghost here = pos as int;
            let ghost done = package_records_of(infos@);
            let id = match cursor::le_u32(buf, &mut pos) {
                Ok(id) => id,
                Err(e) => {
                    return Err(e);
                },
            };
            if id == PACKAGE_SENTINEL {
                assert(done + Seq::<PackageRecord>::empty() =~= done);
                return Ok(infos);
            }
            proof {
                package_record_advances(buf@, pos as int, id, version);
            }
            let info = match parse_package_info(id, version, buf, &mut pos) {
                Ok(info) => info,
                Err(e) => {
                    return Err(e);
                },
            };
            proof {
                let record = info@;
                assert(package_records_of(infos@.push(info)) =~= done.push(record));
                match package_records_at(buf@, pos as int, version) {
                    Err(e) => {},
                    Ok(rest) => {
                        assert(done.push(record) + rest =~= done + (seq![record] + rest));
                    },
                }
            }
            infos.push(info);
        }
    }

    /// The property that `path` leads to in the record's tree.
    pub fn entry(&self, path: &[&str]) -> (r: Option<&Property>)
        ensures
            referred(r) == node_at(&self.props, keys_of(path@)),
            viewed(referred(r)) == value_at(self.props@, keys_of(path@)),
    {
        query::lookup(&self.props, path)
    }

    /// The nested map that `path` leads to, or nothing where the path
    /// leads nowhere or to a value of another kind.
    pub fn map_entry(&self, path: &[&str]) -> (r: Option<&PropertyMap>)
        ensures
            match r {
                Some(inner) => as_table(value_at(self.props@, keys_of(path@))) == Some(inner@),
                None => as_table(value_at(self.props@, keys_of(path@))) is None,
            },
    {
        query::lookup_map(&self.props, path)
    }

    /// A copy of the text that `path` leads to, or nothing where the path
    /// leads nowhere or to a value of another kind.
    pub fn string_entry(&self, path: &[&str]) -> (r: Option<String>)
        ensures
            match r {
                Some(text) => as_text(value_at(self.props@, keys_of(path@))) == Some(text@),
                None => as_text(value_at(self.props@, keys_of(path@))) is None,
            },
    {
        query::lookup_string(&self.props, path)
    }

    /// The 32-bit number that `path` leads to, or nothing where the path
    /// leads nowhere or to a value of another kind.
    pub fn u32_entry(&self, path: &[&str]) -> (r: Option<u32>)
        ensures
            r == as_uint32(value_at(self.props@, keys_of(path@))),
    {
        query::lookup_u32(&self.props, path)
    }

    /// What `path` leads to, on one line: `None` where it leads nowhere, a
    /// number in decimal, a text as it is, `(map)` for a map.
    pub fn format_entry(&self, path: &[&str]) -> (r: String)
        ensures
            r@ == formatted(value_at(self.props@, keys_of(path@))),
    {
        render::format_found(self.entry(path))
    }

    /// The lines that list the record's tree, nested maps down to `depth`
    /// levels.
    pub fn print_props(&self, depth: usize) -> (r: Vec<String>)
        ensures
            texts(r@) == listing(&self.props, depth as nat, Seq::empty()),
    {
        proof {
            reveal_strlit("");
            assert(""@ =~= Seq::<char>::empty());
        }
        self.print_props_helper(&self.props, depth, "")
    }

    /// The lines that list `props`, nested maps down to `depth` levels,
    /// each line behind `prefix` and a tab for each level.
    pub fn print_props_helper(&self, props: &PropertyMap, depth: usize, prefix: &str) -> (r: Vec<
        String,
    >)
        ensures
            texts(r@) == listing(props, depth as nat, prefix@),
    {
        render::print_props_helper(props, depth, prefix)
    }

    /// The lines that show what `path` leads to: the listing of a map, and
    /// for anything else the line that `format_entry` gives.
    pub fn print_entry(&self, path: &[&str]) -> (r: Vec<String>)
        ensures
            texts(r@) == found_lines(node_at(&self.props, keys_of(path@))),
    {
        render::print_found(self.entry(path))
    }
}

} // verus!
