use vstd::prelude::*;
use vstd::utf8::char_is_scalar;
use vstd::utf8::char_u32_cast;
use vstd::utf8::encode_scalar;
use vstd::utf8::encode_utf8;
use vstd::utf8::encode_utf8_decode_utf8;
use vstd::utf8::encode_utf8_valid_utf8;
use crate::cursor::has_bytes;
use crate::cursor::le_u32_at;
use crate::cursor::le_u64_at;
use crate::cursor::terminator_at;
use crate::cursor::text_at;
use crate::error::DecodeError;
use crate::property::Table;
use crate::property::Value;
use crate::tree::entry_at;
use crate::tree::tree_at;
use crate::tree::TAG_BEGIN;
use crate::tree::TAG_END;
use crate::tree::TAG_TEXT;
use crate::tree::TAG_UINT32;
use crate::tree::TAG_UINT64;

verus! {

/// One entry of a map as it is written down: a key, and with it a number,
/// a text, or the entries of a nested map in the order in which they are
/// written.
pub enum Item {
    Uint32(Seq<char>, u32),
    Uint64(Seq<char>, u64),
    Text(Seq<char>, Seq<char>),
    Nested(Seq<char>, Seq<Item>),
}

/// Whether a text can be written down: it holds no NUL character, which
/// would end it early.
pub open spec fn writable(text: Seq<char>) -> bool {
    forall|i: int| 0 <= i < text.len() ==> text[i] != '\0'
}

/// The bytes that UTF-8 makes of a character other than NUL are not zero.
proof fn scalar_bytes(c: u32)
    by (bit_vector)
    ensures
        0 < c <= 0x7F ==> (c & 0x7F) as u8 != 0,
        0xC0u8 | ((c >> 6) & 0x1F) as u8 != 0,
        0xE0u8 | ((c >> 12) & 0x0F) as u8 != 0,
        0xF0u8 | ((c >> 18) & 0x7) as u8 != 0,
        0x80u8 | (c & 0x3F) as u8 != 0,
        0x80u8 | ((c >> 6) & 0x3F) as u8 != 0,
        0x80u8 | ((c >> 12) & 0x3F) as u8 != 0,
{
}

/// The UTF-8 bytes of a text without NUL characters hold no zero.
pub proof fn writable_bytes(text: Seq<char>)
    requires
        writable(text),
    ensures
        forall|i: int| 0 <= i < encode_utf8(text).len() ==> encode_utf8(text)[i] != 0,
    decreases text.len(),
{
    if text.len() > 0 {
        let c = text[0] as u32;
        let first = encode_scalar(c);
        let rest = text.drop_first();
        char_is_scalar(text[0]);
        assert(c != 0) by {
            char_u32_cast(text[0], c);
            char_u32_cast('\0', 0u32);
            assert(text[0] != '\0');
        }
        scalar_bytes(c);
        assert(forall|i: int| 0 <= i < first.len() ==> first[i] != 0);
        assert forall|i: int| 0 <= i < rest.len() implies rest[i] != '\0' by {
            assert(rest[i] == text[i + 1]);
        }
        writable_bytes(rest);
        assert(encode_utf8(text) == first + encode_utf8(rest));
        assert forall|i: int| 0 <= i < encode_utf8(text).len() implies encode_utf8(text)[i]
            != 0 by {
            if i < first.len() {
                assert(encode_utf8(text)[i] == first[i]);
            } else {
                assert(encode_utf8(text)[i] == encode_utf8(rest)[i - first.len()]);
            }
        }
    }
}

/// A text as it is written down: its UTF-8 bytes and a zero.
pub open spec fn text_bytes(text: Seq<char>) -> Seq<u8> {
    encode_utf8(text).push(0)
}

/// The four little-endian bytes of a number.
pub open spec fn uint32_bytes(n: u32) -> Seq<u8> {
    seq![
        (n % 0x100) as u8,
        (n / 0x100 % 0x100) as u8,
        (n / 0x1_0000 % 0x100) as u8,
        (n / 0x100_0000 % 0x100) as u8,
    ]
}

/// The eight little-endian bytes of a number.
pub open spec fn uint64_bytes(n: u64) -> Seq<u8> {
    uint32_bytes((n % 0x1_0000_0000) as u32) + uint32_bytes((n / 0x1_0000_0000) as u32)
}

impl Item {
    /// The key of the entry.
    pub open spec fn key(self) -> Seq<char> {
        match self {
            Item::Uint32(key, _) => key,
            Item::Uint64(key, _) => key,
            Item::Text(key, _) => key,
            Item::Nested(key, _) => key,
        }
    }

    /// The value that the entry stands for.
    pub open spec fn value(self) -> Value
        decreases self,
    {
        match self {
            Item::Uint32(_, number) => Value::Uint32(number),
            Item::Uint64(_, number) => Value::Uint64(number),
            Item::Text(_, text) => Value::Text(text),
            Item::Nested(_, items) => Value::Table(written(items, Map::empty())),
        }
    }

    /// Whether every text in the entry can be written down.
    pub open spec fn writable(self) -> bool
        decreases self,
    {
        match self {
            Item::Uint32(key, _) => writable(key),
            Item::Uint64(key, _) => writable(key),
            Item::Text(key, text) => writable(key) && writable(text),
            Item::Nested(key, items) => writable(key) && all_writable(items),
        }
    }

    /// The entry as it is written down: its tag, its key, and its number,
    /// its text, or its entries with a closing tag.
    pub open spec fn bytes(self) -> Seq<u8>
        decreases self,
    {
        match self {
            Item::Uint32(key, number) => seq![TAG_UINT32] + text_bytes(key) + uint32_bytes(number),
            Item::Uint64(key, number) => seq![TAG_UINT64] + text_bytes(key) + uint64_bytes(number),
            Item::Text(key, text) => seq![TAG_TEXT] + text_bytes(key) + text_bytes(text),
            Item::Nested(key, items) => seq![TAG_BEGIN] + text_bytes(key) + tree_bytes(items),
        }
    }
}

/// The mapping that comes of writing entries to `acc` in turn: of two
/// entries with one key, the later one stays.
pub open spec fn written(items: Seq<Item>, acc: Table) -> Table
    decreases items,
{
    if items.len() == 0 {
        acc
    } else {
        written(items.drop_first(), acc.insert(items[0].key(), items[0].value()))
    }
}

/// Whether every text in the entries can be written down.
pub open spec fn all_writable(items: Seq<Item>) -> bool
    decreases items,
{
    items.len() == 0 || (items[0].writable() && all_writable(items.drop_first()))
}

/// A map as it is written down: its entries in turn, then a closing tag.
pub open spec fn tree_bytes(items: Seq<Item>) -> Seq<u8>
    decreases items,
{
    if items.len() == 0 {
        seq![TAG_END]
    } else {
        items[0].bytes() + tree_bytes(items.drop_first())
    }
}

/// Whether `bytes` stand in `s` from `pos` on.
pub open spec fn holds_at(s: Seq<u8>, pos: int, bytes: Seq<u8>) -> bool {
    &&& 0 <= pos
    &&& pos + bytes.len() <= s.len()
    &&& forall|i: int| 0 <= i < bytes.len() ==> s[pos + i] == bytes[i]
}

/// Bytes that stand one after the other stand each in its place.
pub proof fn holds_split(s: Seq<u8>, pos: int, a: Seq<u8>, b: Seq<u8>)
    requires
        holds_at(s, pos, a + b),
    ensures
        holds_at(s, pos, a),
        holds_at(s, pos + a.len(), b),
{
    assert forall|i: int| 0 <= i < a.len() implies s[pos + i] == a[i] by {
        assert((a + b)[i] == a[i]);
    }
    assert forall|i: int| 0 <= i < b.len() implies s[pos + a.len() + i] == b[i] by {
        assert((a + b)[a.len() + i] == b[i]);
    }
}

/// A zero that follows bytes other than zero is the terminator.
pub proof fn terminator_found(s: Seq<u8>, pos: int, end: int)
    requires
        0 <= pos <= end < s.len(),
        s[end] == 0,
        forall|i: int| pos <= i < end ==> s[i] != 0,
    ensures
        terminator_at(s, pos) == end,
    decreases end - pos,
{
    if pos < end {
        terminator_found(s, pos + 1, end);
    }
}

/// Where no zero follows, there is no terminator.
pub proof fn terminator_missing(s: Seq<u8>, pos: int)
    requires
        0 <= pos,
        forall|i: int| pos <= i < s.len() ==> s[i] != 0,
    ensures
        terminator_at(s, pos) == s.len(),
    decreases s.len() - pos,
{
    if pos < s.len() {
        terminator_missing(s, pos + 1);
    }
}

/// A text that was written down is read back as it was.
pub proof fn text_decodes(s: Seq<u8>, pos: int, text: Seq<char>)
    requires
        writable(text),
        holds_at(s, pos, text_bytes(text)),
    ensures
        text_at(s, pos) == Ok::<(Seq<char>, int), DecodeError>(
            (text, pos + text_bytes(text).len()),
        ),
{
    let raw = encode_utf8(text);
    let end = pos + raw.len();
    writable_bytes(text);
    assert(text_bytes(text)[raw.len() as int] == 0);
    assert(s[end] == 0);
    assert forall|i: int| pos <= i < end implies s[i] != 0 by {
        assert(text_bytes(text)[i - pos] == raw[i - pos]);
        assert(s[pos + (i - pos)] == text_bytes(text)[i - pos]);
    }
    terminator_found(s, pos, end);
    assert(s.subrange(pos, end) =~= raw) by {
        assert forall|i: int| 0 <= i < raw.len() implies s.subrange(pos, end)[i] == raw[i] by {
            assert(text_bytes(text)[i] == raw[i]);
        }
    }
    encode_utf8_valid_utf8(text);
    encode_utf8_decode_utf8(text);
}

/// A 32-bit number that was written down is read back as it was.
pub proof fn uint32_decodes(s: Seq<u8>, pos: int, n: u32)
    requires
        holds_at(s, pos, uint32_bytes(n)),
    ensures
        has_bytes(s, pos, 4),
        le_u32_at(s, pos) == n,
{
    let b = uint32_bytes(n);
    assert(s[pos + 0] == b[0]);
    assert(s[pos + 1] == b[1]);
    assert(s[pos + 2] == b[2]);
    assert(s[pos + 3] == b[3]);
}

/// A 64-bit number that was written down is read back as it was.
pub proof fn uint64_decodes(s: Seq<u8>, pos: int, n: u64)
    requires
        holds_at(s, pos, uint64_bytes(n)),
    ensures
        has_bytes(s, pos, 8),
        le_u64_at(s, pos) == n,
{
    let low = (n % 0x1_0000_0000) as u32;
    let high = (n / 0x1_0000_0000) as u32;
    holds_split(s, pos, uint32_bytes(low), uint32_bytes(high));
    uint32_decodes(s, pos, low);
    uint32_decodes(s, pos + 4, high);
}

/// Decoding gives back what was written: where the bytes of a map's
/// entries and its closing tag stand at `pos`, the map decodes to those
/// entries written in turn to `acc`, and ends just past the closing tag,
/// whatever stands before `pos` and after the tag.
pub proof fn tree_decodes(s: Seq<u8>, pos: int, items: Seq<Item>, acc: Table)
    requires
        all_writable(items),
        holds_at(s, pos, tree_bytes(items)),
    ensures
        tree_at(s, pos, acc) == Ok::<(Table, int), DecodeError>(
            (written(items, acc), pos + tree_bytes(items).len()),
        ),
    decreases items, 1int,
{
    if items.len() == 0 {
        assert(s[pos + 0] == tree_bytes(items)[0]);
    } else {
        let first = items[0];
        let rest = items.drop_first();
        holds_split(s, pos, first.bytes(), tree_bytes(rest));
        entry_decodes(s, pos, first);
        entry_tag(s, pos, first);
        tree_decodes(s, pos + first.bytes().len(), rest, acc.insert(first.key(), first.value()));
    }
}

/// The tag at the start of a written entry is not the closing tag.
pub proof fn entry_tag(s: Seq<u8>, pos: int, item: Item)
    requires
        holds_at(s, pos, item.bytes()),
    ensures
        has_bytes(s, pos, 1),
        s[pos] != TAG_END,
        item.bytes().len() > 0,
{
    assert(item.bytes()[0] != TAG_END);
    assert(s[pos + 0] == item.bytes()[0]);
}

/// An entry that was written down is read back as it was, and ends where
/// its bytes end.
pub proof fn entry_decodes(s: Seq<u8>, pos: int, item: Item)
    requires
        item.writable(),
        holds_at(s, pos, item.bytes()),
    ensures
        entry_at(s, pos) == Ok::<(Seq<char>, Value, int), DecodeError>(
            (item.key(), item.value(), pos + item.bytes().len()),
        ),
    decreases item, 0int,
{
    let key = item.key();
    let after_key = pos + 1 + text_bytes(key).len();
    assert(s[pos + 0] == item.bytes()[0]);
    match item {
        Item::Uint32(_, number) => {
            holds_split(s, pos, seq![TAG_UINT32] + text_bytes(key), uint32_bytes(number));
            holds_split(s, pos, seq![TAG_UINT32], text_bytes(key));
            text_decodes(s, pos + 1, key);
            uint32_decodes(s, after_key, number);
        },
        Item::Uint64(_, number) => {
            holds_split(s, pos, seq![TAG_UINT64] + text_bytes(key), uint64_bytes(number));
            holds_split(s, pos, seq![TAG_UINT64], text_bytes(key));
            text_decodes(s, pos + 1, key);
            uint64_decodes(s, after_key, number);
        },
        Item::Text(_, text) => {
            holds_split(s, pos, seq![TAG_TEXT] + text_bytes(key), text_bytes(text));
            holds_split(s, pos, seq![TAG_TEXT], text_bytes(key));
            text_decodes(s, pos + 1, key);
            text_decodes(s, after_key, text);
        },
        Item::Nested(_, items) => {
            holds_split(s, pos, seq![TAG_BEGIN] + text_bytes(key), tree_bytes(items));
            holds_split(s, pos, seq![TAG_BEGIN], text_bytes(key));
            text_decodes(s, pos + 1, key);
            tree_decodes(s, after_key, items, Map::empty());
        },
    }
}

/// Bytes that stand in a buffer stand in each prefix that is long enough
/// to hold them.
pub proof fn holds_in_prefix(full: Seq<u8>, cut: int, pos: int, bytes: Seq<u8>)
    requires
        holds_at(full, pos, bytes),
        pos + bytes.len() <= cut <= full.len(),
    ensures
        holds_at(full.take(cut), pos, bytes),
{
}

/// A text that is cut off before its terminator is not read.
pub proof fn cut_text_is_truncated(full: Seq<u8>, pos: int, text: Seq<char>, cut: int)
    requires
        writable(text),
        holds_at(full, pos, text_bytes(text)),
        pos <= cut < pos + text_bytes(text).len(),
    ensures
        text_at(full.take(cut), pos) == Err::<(Seq<char>, int), DecodeError>(
            DecodeError::Truncated,
        ),
{
    let s = full.take(cut);
    let raw = encode_utf8(text);
    writable_bytes(text);
    assert forall|i: int| pos <= i < s.len() implies s[i] != 0 by {
        assert(text_bytes(text)[i - pos] == raw[i - pos]);
        assert(full[pos + (i - pos)] == text_bytes(text)[i - pos]);
    }
    terminator_missing(s, pos);
}

/// What is left of a written map that is cut off anywhere before its end
/// does not decode: the buffer runs out in the middle of an entry or with
/// a map still open.
pub proof fn cut_tree_is_truncated(
    full: Seq<u8>,
    pos: int,
    items: Seq<Item>,
    acc: Table,
    cut: int,
)
    requires
        all_writable(items),
        holds_at(full, pos, tree_bytes(items)),
        pos <= cut < pos + tree_bytes(items).len(),
    ensures
        tree_at(full.take(cut), pos, acc) == Err::<(Table, int), DecodeError>(
            DecodeError::Truncated,
        ),
    decreases items, 1int,
{
    let s = full.take(cut);
    if items.len() > 0 {
        let first = items[0];
        let rest = items.drop_first();
        let after = pos + first.bytes().len();
        holds_split(full, pos, first.bytes(), tree_bytes(rest));
        entry_tag(full, pos, first);
        if cut >= after {
            holds_in_prefix(full, cut, pos, first.bytes());
            entry_decodes(s, pos, first);
            entry_tag(s, pos, first);
            cut_tree_is_truncated(full, after, rest, acc.insert(first.key(), first.value()), cut);
        } else {
            cut_entry_is_truncated(full, pos, first, cut);
        }
    }
}

/// What is left of a written entry that is cut off anywhere before its
/// end does not decode.
pub proof fn cut_entry_is_truncated(full: Seq<u8>, pos: int, item: Item, cut: int)
    requires
        item.writable(),
        holds_at(full, pos, item.bytes()),
        pos <= cut < pos + item.bytes().len(),
    ensures
        entry_at(full.take(cut), pos) == Err::<(Seq<char>, Value, int), DecodeError>(
            DecodeError::Truncated,
        ),
    decreases item, 0int,
{
    let s = full.take(cut);
    let key = item.key();
    let after_key = pos + 1 + text_bytes(key).len();
    assert(full[pos + 0] == item.bytes()[0]);
    match item {
        Item::Uint32(_, number) => {
            holds_split(full, pos, seq![TAG_UINT32] + text_bytes(key), uint32_bytes(number));
            holds_split(full, pos, seq![TAG_UINT32], text_bytes(key));
        },
        Item::Uint64(_, number) => {
            holds_split(full, pos, seq![TAG_UINT64] + text_bytes(key), uint64_bytes(number));
            holds_split(full, pos, seq![TAG_UINT64], text_bytes(key));
        },
        Item::Text(_, text) => {
            holds_split(full, pos, seq![TAG_TEXT] + text_bytes(key), text_bytes(text));
            holds_split(full, pos, seq![TAG_TEXT], text_bytes(key));
        },
        Item::Nested(_, items) => {
            holds_split(full, pos, seq![TAG_BEGIN] + text_bytes(key), tree_bytes(items));
            holds_split(full, pos, seq![TAG_BEGIN], text_bytes(key));
        },
    }
    if cut > pos {
        if cut < after_key {
            cut_text_is_truncated(full, pos + 1, key, cut);
        } else {
            holds_in_prefix(full, cut, pos + 1, text_bytes(key));
            text_decodes(s, pos + 1, key);
            match item {
                Item::Uint32(_, number) => {},
                Item::Uint64(_, number) => {},
                Item::Text(_, text) => {
                    cut_text_is_truncated(full, after_key, text, cut);
                },
                Item::Nested(_, items) => {
                    cut_tree_is_truncated(full, after_key, items, Map::empty(), cut);
                },
            }
        }
    }
}

/// Entries with other keys leave what stands under a key as it was.
pub proof fn written_keeps(items: Seq<Item>, acc: Table, key: Seq<char>)
    requires
        forall|j: int| 0 <= j < items.len() ==> (#[trigger] items[j]).key() != key,
    ensures
        written(items, acc).contains_key(key) == acc.contains_key(key),
        written(items, acc)[key] == acc[key],
    decreases items.len(),
{
    if items.len() > 0 {
        let rest = items.drop_first();
        assert(items[0].key() != key);
        assert forall|j: int| 0 <= j < rest.len() implies (#[trigger] rest[j]).key() != key by {
            assert(rest[j] == items[j + 1]);
        }
        written_keeps(rest, acc.insert(items[0].key(), items[0].value()), key);
    }
}

/// The keys of what was written are the keys of the entries, and those
/// that were there before: none is lost and none is made up.
pub proof fn written_has_key(items: Seq<Item>, acc: Table, key: Seq<char>)
    ensures
        written(items, acc).contains_key(key) <==> acc.contains_key(key) || exists|i: int|
            0 <= i < items.len() && (#[trigger] items[i]).key() == key,
    decreases items.len(),
{
    if items.len() > 0 {
        let rest = items.drop_first();
        let next = acc.insert(items[0].key(), items[0].value());
        written_has_key(rest, next, key);
        if exists|i: int| 0 <= i < rest.len() && (#[trigger] rest[i]).key() == key {
            let i = choose|i: int| 0 <= i < rest.len() && (#[trigger] rest[i]).key() == key;
            assert(items[i + 1].key() == key);
        }
        if exists|i: int| 0 <= i < items.len() && (#[trigger] items[i]).key() == key {
            let i = choose|i: int| 0 <= i < items.len() && (#[trigger] items[i]).key() == key;
            if i > 0 {
                assert(rest[i - 1].key() == key);
            }
        }
    }
}

/// Of the entries that are written under one key, the last one wins: the
/// mapping holds its value under that key.
pub proof fn last_write_wins(items: Seq<Item>, acc: Table, i: int)
    requires
        0 <= i < items.len(),
        forall|j: int| i < j < items.len() ==> (#[trigger] items[j]).key() != items[i].key(),
    ensures
        written(items, acc).contains_key(items[i].key()),
        written(items, acc)[items[i].key()] == items[i].value(),
    decreases items.len(),
{
    let rest = items.drop_first();
    let next = acc.insert(items[0].key(), items[0].value());
    if i == 0 {
        assert forall|j: int| 0 <= j < rest.len() implies (#[trigger] rest[j]).key()
            != items[0].key() by {
            assert(rest[j] == items[j + 1]);
        }
        written_keeps(rest, next, items[0].key());
    } else {
        assert(rest[i - 1] == items[i]);
        assert forall|j: int| i - 1 < j < rest.len() implies (#[trigger] rest[j]).key() != rest[i
            - 1].key() by {
            assert(rest[j] == items[j + 1]);
        }
        last_write_wins(rest, next, i - 1);
    }
}

/// Maps that lie one inside the other, each under its key: the first key
/// is the outermost.
pub open spec fn chain(keys: Seq<Seq<char>>) -> Seq<Item>
    decreases keys.len(),
{
    if keys.len() == 0 {
        Seq::empty()
    } else {
        seq![Item::Nested(keys[0], chain(keys.drop_first()))]
    }
}

/// Whether a mapping holds maps nested `depth` deep or deeper.
pub open spec fn nested_to(table: Table, depth: nat) -> bool
    decreases depth, 0int,
{
    depth == 0 || exists|key: Seq<char>| #[trigger]
        table.contains_key(key) && nested_in(table[key], (depth - 1) as nat)
}

/// Whether a value is a map that holds maps nested `depth` deep or deeper.
pub open spec fn nested_in(value: Value, depth: nat) -> bool
    decreases depth, 1int,
{
    match value {
        Value::Table(inner) => nested_to(inner, depth),
        _ => false,
    }
}

/// The depth of a mapping: how deep the maps in it are nested at most.
pub open spec fn has_depth(table: Table, depth: nat) -> bool {
    nested_to(table, depth) && !nested_to(table, depth + 1)
}

/// A chain of maps can be written down where its keys can.
pub proof fn chain_writable(keys: Seq<Seq<char>>)
    requires
        forall|i: int| 0 <= i < keys.len() ==> writable(#[trigger] keys[i]),
    ensures
        all_writable(chain(keys)),
    decreases keys.len(),
{
    if keys.len() > 0 {
        let rest = keys.drop_first();
        assert forall|i: int| 0 <= i < rest.len() implies writable(#[trigger] rest[i]) by {
            assert(rest[i] == keys[i + 1]);
        }
        chain_writable(rest);
        let items = chain(keys);
        assert(items[0].writable());
        assert(items.drop_first() =~= Seq::<Item>::empty());
        assert(all_writable(items.drop_first()));
    }
}

/// A chain of as many maps as there are keys is as deep as it is long.
pub proof fn chain_depth(keys: Seq<Seq<char>>)
    ensures
        has_depth(written(chain(keys), Map::empty()), keys.len()),
    decreases keys.len(),
{
    let items = chain(keys);
    let table = written(items, Map::empty());
    if keys.len() == 0 {
        assert(table =~= Map::<Seq<char>, Value>::empty());
        assert(!nested_to(table, 1));
    } else {
        let rest = keys.drop_first();
        let inner = written(chain(rest), Map::empty());
        chain_depth(rest);
        assert(items.drop_first() =~= Seq::<Item>::empty());
        assert(items[0].value() == Value::Table(inner));
        assert(written(items.drop_first(), Map::<Seq<char>, Value>::empty().insert(
            keys[0],
            Value::Table(inner),
        )) == Map::<Seq<char>, Value>::empty().insert(keys[0], Value::Table(inner)));
        assert(table == Map::<Seq<char>, Value>::empty().insert(keys[0], Value::Table(inner)));
        assert(table.contains_key(keys[0]));
        assert(nested_in(table[keys[0]], rest.len()));
        assert(nested_to(table, keys.len()));
        assert(!nested_to(table, keys.len() + 1)) by {
            if nested_to(table, keys.len() + 1) {
                let key = choose|key: Seq<char>| #[trigger]
                    table.contains_key(key) && nested_in(table[key], keys.len());
                assert(key == keys[0]);
                assert(nested_to(inner, rest.len() + 1));
            }
        }
    }
}

/// Decoding keeps the nesting: maps written one inside the other, `depth`
/// deep for any `depth`, decode to a tree of that depth, and decoding ends
/// just past the tag that closes the outermost map.
pub proof fn nesting_is_kept(s: Seq<u8>, pos: int, keys: Seq<Seq<char>>)
    requires
        forall|i: int| 0 <= i < keys.len() ==> writable(#[trigger] keys[i]),
        holds_at(s, pos, tree_bytes(chain(keys))),
    ensures
        tree_at(s, pos, Map::empty()) == Ok::<(Table, int), DecodeError>(
            (written(chain(keys), Map::empty()), pos + tree_bytes(chain(keys)).len()),
        ),
        has_depth(written(chain(keys), Map::empty()), keys.len()),
{
    chain_writable(keys);
    tree_decodes(s, pos, chain(keys), Map::empty());
    chain_depth(keys);
}

} // verus!
