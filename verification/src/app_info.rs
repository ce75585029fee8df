use vstd::prelude::*;
use vstd::slice::slice_subrange;
use crate::cursor;
use crate::cursor::has_bytes;
use crate::cursor::le_u32_at;
use crate::cursor::le_u64_at;
use crate::error::DecodeError;
use crate::header::header_of;
use crate::header::read_header;
use crate::header::HEADER_LEN;
pub use crate::property::Property;
use crate::property::PropertyMap;
use crate::property::Table;
use crate::query;
use crate::query::as_text;
use crate::query::as_uint32;
use crate::query::as_uint64;
use crate::query::keys_of;
use crate::query::node_at;
use crate::query::referred;
use crate::query::viewed;
use crate::query::value_at;
use crate::render;
use crate::render::formatted;
use crate::render::found_lines;
use crate::render::listing;
use crate::render::texts;
use crate::tree::decode_tree;
use crate::tree::tree_at;

verus! {

/// The signature in the header of an application cache.
pub const APP_MAGIC: u16 = 0x4456;

/// The id that ends the records of an application cache.
pub const APP_SENTINEL: u32 = 0;

/// How many bytes of an application record stand before its tree.
pub const APP_PREAMBLE_LEN: usize = 40;

/// How many bytes the checksum of an application record takes.
pub const CHECKSUM_LEN: usize = 20;

/// One record of the application cache.
#[derive(Debug)]
pub struct AppInfo {
    pub id: u32,
    pub state: u32,
    pub last_updated: u32,
    pub access_token: u64,
    pub checksum: [u8; 20],
    pub change_no: u32,
    pub props: PropertyMap,
}

/// What an application record holds, apart from how it is stored.
pub struct AppRecord {
    pub id: u32,
    pub state: u32,
    pub last_updated: u32,
    pub access_token: u64,
    pub checksum: Seq<u8>,
    pub change_no: u32,
    pub props: Table,
}

impl View for AppInfo {
    type V = AppRecord;

    open spec fn view(&self) -> AppRecord {
        AppRecord {
            id: self.id,
            state: self.state,
            last_updated: self.last_updated,
            access_token: self.access_token,
            checksum: self.checksum@,
            change_no: self.change_no,
            props: self.props@,
        }
    }
}

/// The record that the bytes `s` hold for the application `id`: the state,
/// the time of the last update, the access token, the checksum and the
/// change number, all little-endian, and after them the tree. Bytes that
/// follow the tree's closing tag are not looked at.
pub open spec fn app_record_of(s: Seq<u8>, id: u32) -> Result<AppRecord, DecodeError> {
    if !has_bytes(s, 0, APP_PREAMBLE_LEN as int) {
        Err(DecodeError::Truncated)
    } else {
        match tree_at(s, APP_PREAMBLE_LEN as int, Map::empty()) {
            Err(e) => Err(e),
            Ok((props, end)) => Ok(
                AppRecord {
                    id,
                    state: le_u32_at(s, 0) as u32,
                    last_updated: le_u32_at(s, 4) as u32,
                    access_token: le_u64_at(s, 8) as u64,
                    checksum: s.subrange(16, 36),
                    change_no: le_u32_at(s, 36) as u32,
                    props,
                },
            ),
        }
    }
}

/// The records that stand from `pos` on, up to the id 0 that ends them.
/// After each id stands the length of the record, which bounds what the
/// record's decoding may read and says where the next id stands.
pub open spec fn app_records_at(s: Seq<u8>, pos: int) -> Result<Seq<AppRecord>, DecodeError>
    decreases s.len() - pos,
{
    if !has_bytes(s, pos, 4) {
        Err(DecodeError::Truncated)
    } else if le_u32_at(s, pos) == APP_SENTINEL {
        Ok(Seq::empty())
    } else if !has_bytes(s, pos + 4, 4) {
        Err(DecodeError::Truncated)
    } else if !has_bytes(s, pos + 8, le_u32_at(s, pos + 4)) {
        Err(DecodeError::Truncated)
    } else {
        let size = le_u32_at(s, pos + 4);
        match app_record_of(s.subrange(pos + 8, pos + 8 + size), le_u32_at(s, pos) as u32) {
            Err(e) => Err(e),
            Ok(record) => match app_records_at(s, pos + 8 + size) {
                Err(e) => Err(e),
                Ok(rest) => Ok(seq![record] + rest),
            },
        }
    }
}

/// The records of an application cache: a header with the signature
/// 0x4456, then the records.
pub open spec fn app_cache_of(s: Seq<u8>) -> Result<Seq<AppRecord>, DecodeError> {
    match header_of(s, APP_MAGIC) {
        Err(e) => Err(e),
        Ok(_) => app_records_at(s, HEADER_LEN as int),
    }
}

/// The records that a list of decoded records stands for.
pub open spec fn app_records_of(infos: Seq<AppInfo>) -> Seq<AppRecord> {
    Seq::new(infos.len(), |i: int| infos[i]@)
}

/// What decoding comes to when `done` has been decoded and `rest` is what
/// the records after them come to.
pub open spec fn app_records_after(
    done: Seq<AppRecord>,
    rest: Result<Seq<AppRecord>, DecodeError>,
) -> Result<Seq<AppRecord>, DecodeError> {
    match rest {
        Err(e) => Err(e),
        Ok(more) => Ok(done + more),
    }
}

/// A cache that holds nothing but a header in order and, right after it,
/// the id that ends the records decodes to no record and no error.
pub proof fn empty_app_cache(s: Seq<u8>)
    requires
        header_of(s, APP_MAGIC) is Ok,
        has_bytes(s, HEADER_LEN as int, 4),
        le_u32_at(s, HEADER_LEN as int) == APP_SENTINEL,
    ensures
        app_cache_of(s) == Ok::<Seq<AppRecord>, DecodeError>(Seq::empty()),
{
}

/// Reads the 20 bytes of a checksum and moves the cursor past them.
fn checksum(buf: &[u8], pos: &mut usize) -> (r: Result<[u8; 20], DecodeError>)
    ensures
        match r {
            Ok(sum) => has_bytes(buf@, *old(pos) as int, 20) && sum@ == buf@.subrange(
                *old(pos) as int,
                *old(pos) + 20,
            ) && *final(pos) == *old(pos) + 20,
            Err(e) => e == DecodeError::Truncated && !has_bytes(buf@, *old(pos) as int, 20)
                && *final(pos) == *old(pos),
        },
{
    let at = *pos;
    if at > buf.len() || buf.len() - at < CHECKSUM_LEN {
        return Err(DecodeError::Truncated);
    }
    let mut sum = [0u8; 20];
    let mut i: usize = 0;
    while i < CHECKSUM_LEN
        invariant
            i <= CHECKSUM_LEN,
            at + CHECKSUM_LEN <= buf.len(),
            forall|k: int| 0 <= k < i ==> sum@[k] == buf@[at + k],
        decreases CHECKSUM_LEN - i,
    {
        sum[i] = buf[at + i];
        i = i + 1;
    }
    assert(sum@ =~= buf@.subrange(at as int, at + 20));
    *pos = at + CHECKSUM_LEN;
    Ok(sum)
}

/// Decodes the record of the application `id` from the bytes of that
/// record: the fixed fields and the tree after them.
pub fn parse_app_info(id: u32, buf: &[u8]) -> (r: Result<AppInfo, DecodeError>)
    ensures
        match r {
            Ok(info) => app_record_of(buf@, id) == Ok::<AppRecord, DecodeError>(info@),
            Err(e) => app_record_of(buf@, id) == Err::<AppRecord, DecodeError>(e),
        },
{
    let mut pos: usize = 0;
    let state = match cursor::le_u32(buf, &mut pos) {
        Ok(state) => state,
        Err(e) => {
            return Err(e);
        },
    };
    let last_updated = match cursor::le_u32(buf, &mut pos) {
        Ok(last_updated) => last_updated,
        Err(e) => {
            return Err(e);
        },
    };
    let access_token = match cursor::le_u64(buf, &mut pos) {
        Ok(access_token) => access_token,
        Err(e) => {
            return Err(e);
        },
    };
    let checksum = match checksum(buf, &mut pos) {
        Ok(checksum) => checksum,
        Err(e) => {
            return Err(e);
        },
    };
    let change_no = match cursor::le_u32(buf, &mut pos) {
        Ok(change_no) => change_no,
        Err(e) => {
            return Err(e);
        },
    };
    let props = match decode_tree(buf, &mut pos) {
        Ok(props) => props,
        Err(e) => {
            return Err(e);
        },
    };
    Ok(AppInfo { id, state, last_updated, access_token, checksum, change_no, props })
}

impl AppInfo {
    /// Decodes an application cache: checks the header, then decodes
    /// record after record up to the id 0. Any error ends the load: no
    /// part of the records is returned.
    pub fn load(buf: &[u8]) -> (r: Result<Vec<AppInfo>, DecodeError>)
        ensures
            match r {
                Ok(infos) => app_cache_of(buf@) == Ok::<Seq<AppRecord>, DecodeError>(
                    app_records_of(infos@),
                ),
                Err(e) => app_cache_of(buf@) == Err::<Seq<AppRecord>, DecodeError>(e),
            },
    {
        match read_header(buf, APP_MAGIC) {
            Ok(_) => {},
            Err(e) => {
                return Err(e);
            },
        }
        let mut pos: usize = HEADER_LEN;
        let mut infos: Vec<AppInfo> = Vec::new();
        assert(app_records_of(infos@) =~= Seq::empty());
        loop
            invariant
                HEADER_LEN <= pos <= buf@.len(),
                app_cache_of(buf@) == app_records_after(
                    app_records_of(infos@),
                    app_records_at(buf@, pos as int),
                ),
            decreases buf@.len() - pos,
        {
            let ghost here = pos as int;
            let ghost done = app_records_of(infos@);
            let id = match cursor::le_u32(buf, &mut pos) {
                Ok(id) => id,
                Err(e) => {
                    return Err(e);
                },
            };
            if id == APP_SENTINEL {
                assert(done + Seq::<AppRecord>::empty() =~= done);
                return Ok(infos);
            }
            let size = match cursor::le_u32(buf, &mut pos) {
                Ok(size) => size,
                Err(e) => {
                    return Err(e);
                },
            };
            if buf.len() - pos < size as usize {
                return Err(DecodeError::Truncated);
            }
            let end = pos + size as usize;
            let info = match parse_app_info(id, slice_subrange(buf, pos, end)) {
                Ok(info) => info,
                Err(e) => {
                    return Err(e);
                },
            };
            proof {
                let record = info@;
                assert(app_records_of(infos@.push(info)) =~= done.push(record));
                match app_records_at(buf@, end as int) {
                    Err(e) => {},
                    Ok(rest) => {
                        assert(done.push(record) + rest =~= done + (seq![record] + rest));
                    },
                }
            }
            infos.push(info);
            pos = end;
        }
    }

    /// The property that `path` leads to in the record's tree.
    pub fn entry(&self, path: &[&str]) -> (r: Option<&Property>)
        ensures
            referred(r) == node_at(&self.props, keys_of(path@)),
            viewed(referred(r)) == value_at(self.props@, keys_of(path@)),
    {
        query::lookup(&self.props, path)
    }

    /// A copy of the text that `path` leads to, or nothing where the path
    /// leads nowhere or to a value of another kind.
    pub fn string_entry(&self, path: &[&str]) -> (r: Option<String>)
        ensures
            match r {
                Some(text) => as_text(value_at(self.props@, keys_of(path@))) == Some(text@),
                None => as_text(value_at(self.props@, keys_of(path@))) is None,
            },
    {
        query::lookup_string(&self.props, path)
    }

    /// The 32-bit number that `path` leads to, or nothing where the path
    /// leads nowhere or to a value of another kind.
    pub fn u32_entry(&self, path: &[&str]) -> (r: Option<u32>)
        ensures
            r == as_uint32(value_at(self.props@, keys_of(path@))),
    {
        query::lookup_u32(&self.props, path)
    }

    /// The 64-bit number that `path` leads to, or nothing where the path
    /// leads nowhere or to a value of another kind.
    pub fn u64(&self, path: &[&str]) -> (r: Option<u64>)
        ensures
            r == as_uint64(value_at(self.props@, keys_of(path@))),
    {
        query::lookup_u64(&self.props, path)
    }

    /// What `path` leads to, on one line: `None` where it leads nowhere, a
    /// number in decimal, a text as it is, `(map)` for a map.
    pub fn format_entry(&self, path: &[&str]) -> (r: String)
        ensures
            r@ == formatted(value_at(self.props@, keys_of(path@))),
    {
        render::format_found(self.entry(path))
    }

    /// The lines that list the record's tree, nested maps down to `depth`
    /// levels.
    pub fn print_props(&self, depth: usize) -> (r: Vec<String>)
        ensures
            texts(r@) == listing(&self.props, depth as nat, Seq::empty()),
    {
        proof {
            reveal_strlit("");
            assert(""@ =~= Seq::<char>::empty());
        }
        self.print_props_helper(&self.props, depth, "")
    }

    /// The lines that list `props`, nested maps down to `depth` levels,
    /// each line behind `prefix` and a tab for each level.
    pub fn print_props_helper(&self, props: &PropertyMap, depth: usize, prefix: &str) -> (r: Vec<
        String,
    >)
        ensures
            texts(r@) == listing(props, depth as nat, prefix@),
    {
        render::print_props_helper(props, depth, prefix)
    }

    /// The lines that show what `path` leads to: the listing of a map, and
    /// for anything else the line that `format_entry` gives.
    pub fn print_entry(&self, path: &[&str]) -> (r: Vec<String>)
        ensures
            texts(r@) == found_lines(node_at(&self.props, keys_of(path@))),
    {
        render::print_found(self.entry(path))
    }
}

} // verus!
