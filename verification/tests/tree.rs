use steam::cursor;
use steam::error::DecodeError;
use steam::property::Property;
use steam::property::PropertyMap;
use steam::query::lookup;
use steam::query::lookup_map;
use steam::query::lookup_string;
use steam::query::lookup_u32;
use steam::query::lookup_u64;
use steam::tree::decode_tree;

fn text(s: &str) -> Vec<u8> {
    let mut out = s.as_bytes().to_vec();
    out.push(0);
    out
}

fn uint32_entry(key: &str, n: u32) -> Vec<u8> {
    let mut out = vec![0x02];
    out.extend(text(key));
    out.extend(n.to_le_bytes());
    out
}

fn uint64_entry(key: &str, n: u64) -> Vec<u8> {
    let mut out = vec![0x07];
    out.extend(text(key));
    out.extend(n.to_le_bytes());
    out
}

fn text_entry(key: &str, value: &str) -> Vec<u8> {
    let mut out = vec![0x01];
    out.extend(text(key));
    out.extend(text(value));
    out
}

fn begin(key: &str) -> Vec<u8> {
    let mut out = vec![0x00];
    out.extend(text(key));
    out
}

/// `{ "a": 7, "b": { "c": "x" } }`
fn sample() -> Vec<u8> {
    let mut out = uint32_entry("a", 7);
    out.extend(begin("b"));
    out.extend(text_entry("c", "x"));
    out.push(0x08);
    out.push(0x08);
    out
}

fn decode(buf: &[u8]) -> Result<PropertyMap, DecodeError> {
    let mut pos = 0;
    decode_tree(buf, &mut pos)
}

#[test]
fn cursor_reads_fixed_width_values() {
    let buf = [0x12, 0x44, 0x56, 0x78, 0x56, 0x34, 0x12, 1, 2, 3, 4, 5, 6, 7, 8];
    let mut pos = 0;
    assert_eq!(cursor::u8(&buf, &mut pos), Ok(0x12));
    assert_eq!(pos, 1);
    assert_eq!(cursor::be_u16(&buf, &mut pos), Ok(0x4456));
    assert_eq!(pos, 3);
    assert_eq!(cursor::le_u32(&buf, &mut pos), Ok(0x12345678));
    assert_eq!(pos, 7);
    assert_eq!(cursor::le_u64(&buf, &mut pos), Ok(0x0807060504030201));
    assert_eq!(pos, 15);
}

#[test]
fn cursor_reports_truncation_and_stays() {
    let buf = [1, 2, 3];
    let mut pos = 3;
    assert_eq!(cursor::u8(&buf, &mut pos), Err(DecodeError::Truncated));
    assert_eq!(pos, 3);
    pos = 2;
    assert_eq!(cursor::be_u16(&buf, &mut pos), Err(DecodeError::Truncated));
    assert_eq!(pos, 2);
    pos = 0;
    assert_eq!(cursor::le_u32(&buf, &mut pos), Err(DecodeError::Truncated));
    assert_eq!(cursor::le_u64(&buf, &mut pos), Err(DecodeError::Truncated));
    assert_eq!(pos, 0);
    pos = 7;
    assert_eq!(cursor::u8(&buf, &mut pos), Err(DecodeError::Truncated));
    assert_eq!(cursor::le_u32(&buf, &mut pos), Err(DecodeError::Truncated));
    assert_eq!(pos, 7);
}

#[test]
fn cursor_reads_largest_values() {
    let buf = [0xFF; 8];
    let mut pos = 0;
    assert_eq!(cursor::le_u64(&buf, &mut pos), Ok(u64::MAX));
    pos = 0;
    assert_eq!(cursor::le_u32(&buf, &mut pos), Ok(u32::MAX));
    pos = 0;
    assert_eq!(cursor::be_u16(&buf, &mut pos), Ok(u16::MAX));
}

#[test]
fn string_reads_up_to_terminator() {
    let buf = [b'h', b'i', 0, b'x', 0];
    let mut pos = 0;
    assert_eq!(cursor::string(&buf, &mut pos), Ok("hi".to_string()));
    assert_eq!(pos, 3);
    assert_eq!(cursor::string(&buf, &mut pos), Ok("x".to_string()));
    assert_eq!(pos, 5);
    assert_eq!(cursor::string(&buf, &mut pos), Err(DecodeError::Truncated));
    assert_eq!(pos, 5);
}

#[test]
fn string_may_be_empty() {
    let buf = [0, 1];
    let mut pos = 0;
    assert_eq!(cursor::string(&buf, &mut pos), Ok(String::new()));
    assert_eq!(pos, 1);
}

#[test]
fn string_decodes_utf8() {
    let mut buf = "Größe 日本 🎮".as_bytes().to_vec();
    buf.push(0);
    let mut pos = 0;
    assert_eq!(cursor::string(&buf, &mut pos), Ok("Größe 日本 🎮".to_string()));
    assert_eq!(pos, buf.len());
}

#[test]
fn string_without_terminator_is_truncated() {
    let buf = [b'a', b'b'];
    let mut pos = 0;
    assert_eq!(cursor::string(&buf, &mut pos), Err(DecodeError::Truncated));
    assert_eq!(pos, 0);
}

#[test]
fn string_rejects_invalid_utf8() {
    let buf = [0xC3, 0x28, 0];
    let mut pos = 0;
    assert_eq!(cursor::string(&buf, &mut pos), Err(DecodeError::InvalidUtf8));
    assert_eq!(pos, 0);
    let lone = [0xFF, 0];
    assert_eq!(cursor::string(&lone, &mut pos), Err(DecodeError::InvalidUtf8));
}

#[test]
fn map_insert_overwrites() {
    let mut map = PropertyMap::new();
    assert_eq!(map.len(), 0);
    map.insert("k".to_string(), Property::Uint32(1));
    map.insert("other".to_string(), Property::Uint32(5));
    map.insert("k".to_string(), Property::String("late".to_string()));
    assert_eq!(map.len(), 2);
    assert!(matches!(map.get("k"), Some(Property::String(s)) if s == "late"));
    assert!(matches!(map.get("other"), Some(Property::Uint32(5))));
    assert!(map.get("missing").is_none());
    assert!(map.get("").is_none());
}

#[test]
fn map_take_only() {
    let empty = PropertyMap::new();
    assert!(empty.take_only().is_none());
    let mut one = PropertyMap::new();
    one.insert("k".to_string(), Property::Uint64(9));
    assert!(matches!(one.take_only(), Some((key, Property::Uint64(9))) if key == "k"));
    let mut two = PropertyMap::new();
    two.insert("a".to_string(), Property::Uint32(1));
    two.insert("b".to_string(), Property::Uint32(2));
    assert!(two.take_only().is_none());
}

#[test]
fn sample_tree_answers_lookups() {
    let tree = decode(&sample()).unwrap();
    assert!(matches!(lookup(&tree, &["a"]), Some(Property::Uint32(7))));
    assert!(matches!(lookup(&tree, &["b", "c"]), Some(Property::String(s)) if s == "x"));
    assert!(matches!(lookup(&tree, &["b"]), Some(Property::Table(_))));
    assert!(lookup(&tree, &["a", "z"]).is_none());
    assert!(lookup(&tree, &["missing"]).is_none());
    assert!(lookup(&tree, &[]).is_none());
    assert!(lookup(&tree, &["b", "missing"]).is_none());
    assert!(lookup(&tree, &["b", "c", "d"]).is_none());
}

#[test]
fn typed_lookups_narrow_without_coercion() {
    let mut buf = uint32_entry("n", 7);
    buf.extend(uint64_entry("big", 0x1_0000_0007));
    buf.extend(text_entry("t", "7"));
    buf.extend(begin("m"));
    buf.push(0x08);
    buf.push(0x08);
    let tree = decode(&buf).unwrap();
    assert_eq!(lookup_u32(&tree, &["n"]), Some(7));
    assert_eq!(lookup_u64(&tree, &["n"]), None);
    assert_eq!(lookup_string(&tree, &["n"]), None);
    assert!(lookup_map(&tree, &["n"]).is_none());
    assert_eq!(lookup_u64(&tree, &["big"]), Some(0x1_0000_0007));
    assert_eq!(lookup_u32(&tree, &["big"]), None);
    assert_eq!(lookup_string(&tree, &["t"]), Some("7".to_string()));
    assert_eq!(lookup_u32(&tree, &["t"]), None);
    assert_eq!(lookup_map(&tree, &["m"]).map(|m| m.len()), Some(0));
    assert_eq!(lookup_u32(&tree, &["m"]), None);
    assert_eq!(lookup_u32(&tree, &["absent"]), None);
    assert_eq!(lookup_u32(&tree, &[]), None);
}

#[test]
fn decoding_stops_at_the_closing_tag() {
    let mut buf = sample();
    let end = buf.len();
    buf.extend([0x08, 0xAA, 0x01]);
    let mut pos = 0;
    let tree = decode_tree(&buf, &mut pos).unwrap();
    assert_eq!(pos, end);
    assert_eq!(tree.len(), 2);
}

#[test]
fn decoding_starts_at_the_cursor() {
    let mut buf = vec![0xEE, 0xEE, 0xEE];
    buf.extend(sample());
    let mut pos = 3;
    let tree = decode_tree(&buf, &mut pos).unwrap();
    assert_eq!(pos, buf.len());
    assert_eq!(lookup_u32(&tree, &["a"]), Some(7));
}

#[test]
fn empty_tree_is_one_closing_tag() {
    let mut pos = 0;
    let tree = decode_tree(&[0x08], &mut pos).unwrap();
    assert_eq!(tree.len(), 0);
    assert_eq!(pos, 1);
}

#[test]
fn nesting_depth_is_preserved() {
    for depth in 0..40usize {
        let keys: Vec<String> = (0..depth).map(|i| format!("k{}", i)).collect();
        let mut buf = Vec::new();
        for key in &keys {
            buf.extend(begin(key));
        }
        for _ in 0..depth + 1 {
            buf.push(0x08);
        }
        let mut pos = 0;
        let tree = decode_tree(&buf, &mut pos).unwrap();
        assert_eq!(pos, buf.len());
        let path: Vec<&str> = keys.iter().map(|k| k.as_str()).collect();
        for d in 1..depth + 1 {
            let found = lookup_map(&tree, &path[..d]).unwrap();
            assert_eq!(found.len(), if d == depth { 0 } else { 1 });
        }
        if depth == 0 {
            assert_eq!(tree.len(), 0);
        }
    }
}

#[test]
fn same_key_at_different_levels() {
    let mut buf = begin("k");
    buf.extend(begin("k"));
    buf.extend(uint32_entry("k", 3));
    buf.push(0x08);
    buf.push(0x08);
    buf.extend(uint32_entry("after", 4));
    buf.push(0x08);
    let tree = decode(&buf).unwrap();
    assert_eq!(lookup_u32(&tree, &["k", "k", "k"]), Some(3));
    assert_eq!(lookup_u32(&tree, &["after"]), Some(4));
    assert_eq!(tree.len(), 2);
}

#[test]
fn duplicate_keys_last_write_wins() {
    let mut buf = uint32_entry("k", 1);
    buf.extend(uint32_entry("k", 2));
    buf.extend(text_entry("s", "first"));
    buf.extend(uint64_entry("s", 99));
    buf.extend(begin("m"));
    buf.extend(uint32_entry("inner", 1));
    buf.push(0x08);
    buf.extend(begin("m"));
    buf.extend(uint32_entry("other", 2));
    buf.push(0x08);
    buf.extend(begin("gone"));
    buf.push(0x08);
    buf.extend(uint32_entry("gone", 5));
    buf.push(0x08);
    let tree = decode(&buf).unwrap();
    assert_eq!(tree.len(), 4);
    assert_eq!(lookup_u32(&tree, &["k"]), Some(2));
    assert_eq!(lookup_u64(&tree, &["s"]), Some(99));
    assert_eq!(lookup_string(&tree, &["s"]), None);
    assert_eq!(lookup_u32(&tree, &["m", "inner"]), None);
    assert_eq!(lookup_u32(&tree, &["m", "other"]), Some(2));
    assert_eq!(lookup_u32(&tree, &["gone"]), Some(5));
}

#[test]
fn uint64_leaf_is_decoded() {
    let mut buf = uint64_entry("token", 0xFEDC_BA98_7654_3210);
    buf.extend(uint32_entry("next", 0xDEAD_BEEF));
    buf.push(0x08);
    let tree = decode(&buf).unwrap();
    assert_eq!(lookup_u64(&tree, &["token"]), Some(0xFEDC_BA98_7654_3210));
    assert_eq!(lookup_u32(&tree, &["next"]), Some(0xDEAD_BEEF));
}

#[test]
fn every_proper_prefix_is_truncated() {
    let mut full = sample();
    full.pop();
    full.extend(uint64_entry("d", 1));
    full.push(0x08);
    assert!(decode(&full).is_ok());
    for cut in 0..full.len() {
        let mut pos = 0;
        assert_eq!(
            decode_tree(&full[..cut], &mut pos).unwrap_err(),
            DecodeError::Truncated,
            "cut at {}",
            cut
        );
        assert_eq!(pos, 0);
    }
}

#[test]
fn unclosed_map_is_truncated() {
    let mut buf = begin("open");
    buf.extend(uint32_entry("a", 1));
    buf.push(0x08);
    assert_eq!(decode(&buf).unwrap_err(), DecodeError::Truncated);
    let mut extra = begin("a");
    extra.extend(begin("b"));
    extra.push(0x08);
    extra.push(0x08);
    assert_eq!(decode(&extra).unwrap_err(), DecodeError::Truncated);
    assert_eq!(decode(&[]).unwrap_err(), DecodeError::Truncated);
}

#[test]
fn unknown_tag_is_an_error() {
    for tag in [0x03u8, 0x04, 0x05, 0x06, 0x09, 0x0A, 0x7F, 0xFF] {
        let mut buf = uint32_entry("a", 1);
        buf.push(tag);
        buf.extend(text("key"));
        buf.extend([0, 0, 0, 0, 0x08]);
        let mut pos = 0;
        assert_eq!(decode_tree(&buf, &mut pos).unwrap_err(), DecodeError::UnknownTagKind);
        assert_eq!(pos, 0);
    }
    assert_eq!(decode(&[0x03]).unwrap_err(), DecodeError::UnknownTagKind);
}

#[test]
fn invalid_utf8_in_key_or_value() {
    let mut bad_key = vec![0x02, 0xC0, 0x00];
    bad_key.extend([0, 0, 0, 0, 0x08]);
    assert_eq!(decode(&bad_key).unwrap_err(), DecodeError::InvalidUtf8);
    let mut bad_value = vec![0x01];
    bad_value.extend(text("k"));
    bad_value.extend([0xE2, 0x82, 0x00, 0x08]);
    assert_eq!(decode(&bad_value).unwrap_err(), DecodeError::InvalidUtf8);
    let mut bad_map_key = vec![0x00, 0x80, 0x00, 0x08, 0x08];
    assert_eq!(decode(&bad_map_key).unwrap_err(), DecodeError::InvalidUtf8);
    bad_map_key.truncate(2);
    assert_eq!(decode(&bad_map_key).unwrap_err(), DecodeError::Truncated);
}

#[test]
fn error_order_follows_the_stream() {
    let mut buf = vec![0x02, 0xFF, 0x00, 1, 2];
    assert_eq!(decode(&buf).unwrap_err(), DecodeError::InvalidUtf8);
    buf = vec![0x02, b'k', 0x00, 1, 2];
    assert_eq!(decode(&buf).unwrap_err(), DecodeError::Truncated);
    buf = vec![0x02, b'k', 0x00, 1, 2, 3, 4, 0x09];
    assert_eq!(decode(&buf).unwrap_err(), DecodeError::UnknownTagKind);
}
