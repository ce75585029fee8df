use vstd::prelude::*;
use vstd::string::StringExecFns;
use crate::property::Property;
use crate::property::PropertyMap;
use crate::property::Value;
use crate::query::referred;
use crate::query::viewed;

verus! {

/// The character of a decimal digit.
pub open spec fn digit(d: nat) -> char {
    if d == 0 {
        '0'
    } else if d == 1 {
        '1'
    } else if d == 2 {
        '2'
    } else if d == 3 {
        '3'
    } else if d == 4 {
        '4'
    } else if d == 5 {
        '5'
    } else if d == 6 {
        '6'
    } else if d == 7 {
        '7'
    } else if d == 8 {
        '8'
    } else {
        '9'
    }
}

/// A number in decimal, without leading zeros.
pub open spec fn decimal(n: nat) -> Seq<char>
    decreases n,
{
    if n < 10 {
        seq![digit(n)]
    } else {
        decimal(n / 10).push(digit(n % 10))
    }
}

/// Digits that were collected from the lowest up, read from the highest
/// down.
pub open spec fn digits_reversed(digits: Seq<u8>) -> Seq<char> {
    Seq::new(digits.len(), |i: int| digit(digits[digits.len() - 1 - i] as nat))
}

/// The text of one decimal digit.
fn digit_str(d: u8) -> (r: &'static str)
    requires
        d < 10,
    ensures
        r@ == seq![digit(d as nat)],
{
    proof {
        reveal_strlit("0");
        reveal_strlit("1");
        reveal_strlit("2");
        reveal_strlit("3");
        reveal_strlit("4");
        reveal_strlit("5");
        reveal_strlit("6");
        reveal_strlit("7");
        reveal_strlit("8");
        reveal_strlit("9");
    }
    let r = if d == 0 {
        "0"
    } else if d == 1 {
        "1"
    } else if d == 2 {
        "2"
    } else if d == 3 {
        "3"
    } else if d == 4 {
        "4"
    } else if d == 5 {
        "5"
    } else if d == 6 {
        "6"
    } else if d == 7 {
        "7"
    } else if d == 8 {
        "8"
    } else {
        "9"
    };
    assert(r@ =~= seq![digit(d as nat)]);
    r
}

/// Writes a number in decimal.
pub fn decimal_string(n: u64) -> (r: String)
    ensures
        r@ == decimal(n as nat),
{
    let mut digits: Vec<u8> = Vec::new();
    digits.push((n % 10) as u8);
    let mut rest: u64 = n / 10;
    assert(decimal(n as nat) =~= (if rest == 0 {
        Seq::<char>::empty()
    } else {
        decimal(rest as nat)
    }) + digits_reversed(digits@));
    while rest > 0
        invariant
            digits@.len() > 0,
            forall|i: int| 0 <= i < digits@.len() ==> digits@[i] < 10,
            decimal(n as nat) == (if rest == 0 {
                Seq::<char>::empty()
            } else {
                decimal(rest as nat)
            }) + digits_reversed(digits@),
        decreases rest,
    {
        let ghost before = digits@;
        let ghost lead = rest;
        digits.push((rest % 10) as u8);
        rest = rest / 10;
        proof {
            assert(digits_reversed(digits@) =~= seq![digit((lead % 10) as nat)] + digits_reversed(
                before,
            ));
            assert(decimal(lead as nat) =~= (if rest == 0 {
                Seq::<char>::empty()
            } else {
                decimal(rest as nat)
            }) + seq![digit((lead % 10) as nat)]);
        }
    }
    let mut out = String::new();
    let mut i: usize = digits.len();
    while i > 0
        invariant
            i <= digits@.len(),
            forall|k: int| 0 <= k < digits@.len() ==> digits@[k] < 10,
            out@ == digits_reversed(digits@).take(digits@.len() - i),
        decreases i,
    {
        i = i - 1;
        let ghost before = out@;
        out.append(digit_str(digits[i]));
        assert(out@ =~= digits_reversed(digits@).take(digits@.len() - i));
    }
    assert(out@ =~= digits_reversed(digits@));
    out
}

/// The text that `{:?}` of std gives for a `str` with these characters:
/// the characters between double quotes, with those escaped that a Rust
/// string literal escapes.
pub uninterp spec fn debug_text(text: Seq<char>) -> Seq<char>;

/// `format!("{:?}", ..)` of std on a `str`. The result depends on the
/// characters of the text alone; which characters are escaped, and how, is
/// left to std.
#[verifier::external_body]
fn debug_string(text: &str) -> (r: String)
    ensures
        r@ == debug_text(text@),
{
    format!("{:?}", text)
}

/// A number or a text as a listing shows it, given the text between
/// quotes as `quoted`: the name of its kind, and the value in brackets.
pub open spec fn shown(value: Value, quoted: Seq<char>) -> Seq<char> {
    match value {
        Value::Uint32(number) => "Uint32("@ + decimal(number as nat) + ")"@,
        Value::Uint64(number) => "Uint64("@ + decimal(number as nat) + ")"@,
        Value::Text(_) => "String("@ + quoted + ")"@,
        Value::Table(_) => "(map)"@,
    }
}

/// What a value is shown as where one line has to do: nothing as `None`,
/// a number in decimal, a text as it is, a map as `(map)`.
pub open spec fn formatted(found: Option<Value>) -> Seq<char> {
    match found {
        None => "None"@,
        Some(Value::Uint32(number)) => decimal(number as nat),
        Some(Value::Uint64(number)) => decimal(number as nat),
        Some(Value::Text(text)) => text,
        Some(Value::Table(_)) => "(map)"@,
    }
}

/// The lines that list a map: its entries in the order in which the map
/// holds them, each on a line of its own behind `prefix`, and under each
/// nested map its own entries, behind one more tab, as long as `depth`
/// allows.
pub open spec fn listing(props: &PropertyMap, depth: nat, prefix: Seq<char>) -> Seq<Seq<char>>
    decreases depth, props.spec_len() + 1,
{
    listing_from(props, 0, depth, prefix)
}

/// The lines that list the entries of a map from the entry at `from` on.
pub open spec fn listing_from(props: &PropertyMap, from: int, depth: nat, prefix: Seq<char>)
    -> Seq<Seq<char>>
    decreases depth, props.spec_len() - from,
{
    if from < 0 || from >= props.spec_len() {
        Seq::empty()
    } else {
        entry_lines(props.spec_key(from), props.spec_value(from), depth, prefix) + listing_from(
            props,
            from + 1,
            depth,
            prefix,
        )
    }
}

/// The lines that list one entry: one line for a number or a text; for a
/// nested map a line that names it and, where `depth` is over 0, the lines
/// of its entries one level down.
pub open spec fn entry_lines(key: Seq<char>, value: Property, depth: nat, prefix: Seq<char>)
    -> Seq<Seq<char>>
    decreases depth, 0int,
{
    match value {
        Property::Table(inner) => seq![prefix + key + " (map)"@] + (if depth > 0 {
            listing(&inner, (depth - 1) as nat, prefix + "\t"@)
        } else {
            Seq::empty()
        }),
        Property::String(text) => seq![prefix + key + " "@ + shown(value@, debug_text(text@))],
        _ => seq![prefix + key + " "@ + shown(value@, Seq::empty())],
    }
}

/// The characters of each text of a list.
pub open spec fn texts(lines: Seq<String>) -> Seq<Seq<char>> {
    Seq::new(lines.len(), |i: int| lines[i]@)
}

/// Shows a number or a text as a listing does; `quoted` is the text
/// between quotes where the property is a text.
pub fn show(value: &Property, quoted: &str) -> (r: String)
    ensures
        r@ == shown(value@, quoted@),
{
    let mut out = String::new();
    match value {
        Property::Uint32(number) => {
            out.append("Uint32(");
            out.append(decimal_string(*number as u64).as_str());
            out.append(")");
        },
        Property::Uint64(number) => {
            out.append("Uint64(");
            out.append(decimal_string(*number).as_str());
            out.append(")");
        },
        Property::String(_) => {
            out.append("String(");
            out.append(quoted);
            out.append(")");
        },
        Property::Table(_) => {
            out.append("(map)");
        },
    }
    assert(out@ =~= shown(value@, quoted@));
    out
}

/// Shows what a lookup found on one line.
pub fn format_found(found: Option<&Property>) -> (r: String)
    ensures
        r@ == formatted(
            match found {
                Some(value) => Some(value@),
                None => None,
            },
        ),
{
    match found {
        None => "None".to_owned(),
        Some(Property::Uint32(number)) => decimal_string(*number as u64),
        Some(Property::Uint64(number)) => decimal_string(*number),
        Some(Property::String(text)) => text.clone(),
        Some(Property::Table(_)) => "(map)".to_owned(),
    }
}

/// Appends the lines that list a map to `out`.
fn list_into(props: &PropertyMap, depth: usize, prefix: &str, out: &mut Vec<String>)
    ensures
        texts(final(out)@) == texts(old(out)@) + listing(props, depth as nat, prefix@),
    decreases depth,
{
    let ghost start = texts(out@);
    let count = props.len();
    let mut i: usize = 0;
    assert(start + Seq::<Seq<char>>::empty() =~= start);
    while i < count
        invariant
            i <= count,
            count == props.spec_len(),
            texts(out@) + listing_from(props, i as int, depth as nat, prefix@) == start + listing(
                props,
                depth as nat,
                prefix@,
            ),
        decreases count - i,
    {
        let ghost before = texts(out@);
        let ghost rest = listing_from(props, i + 1, depth as nat, prefix@);
        match props.entry_at(i) {
            None => {},
            Some((key, value)) => {
                let mut line = String::new();
                line.append(prefix);
                line.append(key);
                match value {
                    Property::Table(inner) => {
                        line.append(" (map)");
                        proof {
                            assert(line@ =~= prefix@ + key@ + " (map)"@);
                            assert(texts(out@.push(line)) =~= before + seq![line@]);
                        }
                        out.push(line);
                        if depth > 0 {
                            let mut deeper = prefix.to_owned();
                            deeper.append("\t");
                            list_into(inner, depth - 1, deeper.as_str(), out);
                        }
                        proof {
                            let lines = entry_lines(key@, *value, depth as nat, prefix@);
                            assert(texts(out@) =~= before + lines);
                            assert((before + lines) + rest =~= before + (lines + rest));
                        }
                    },
                    Property::String(text) => {
                        line.append(" ");
                        line.append(show(value, debug_string(text.as_str()).as_str()).as_str());
                        proof {
                            let lines = entry_lines(key@, *value, depth as nat, prefix@);
                            assert(line@ =~= prefix@ + key@ + " "@ + shown(
                                value@,
                                debug_text(text@),
                            ));
                            assert(texts(out@.push(line)) =~= before + lines);
                            assert((before + lines) + rest =~= before + (lines + rest));
                        }
                        out.push(line);
                    },
                    _ => {
                        line.append(" ");
                        line.append(show(value, "").as_str());
                        proof {
                            let lines = entry_lines(key@, *value, depth as nat, prefix@);
                            assert(line@ =~= prefix@ + key@ + " "@ + shown(value@, ""@));
                            assert(shown(value@, ""@) == shown(value@, Seq::empty()));
                            assert(texts(out@.push(line)) =~= before + lines);
                            assert((before + lines) + rest =~= before + (lines + rest));
                        }
                        out.push(line);
                    },
                }
            },
        }
        i = i + 1;
    }
    assert(texts(out@) + Seq::<Seq<char>>::empty() =~= texts(out@));
}

/// Lists a map: the lines that show its entries, nested maps down to
/// `depth` levels, each line behind `prefix` and a tab for each level.
pub fn print_props_helper(props: &PropertyMap, depth: usize, prefix: &str) -> (r: Vec<String>)
    ensures
        texts(r@) == listing(props, depth as nat, prefix@),
{
    let mut out: Vec<String> = Vec::new();
    assert(texts(out@) =~= Seq::empty());
    list_into(props, depth, prefix, &mut out);
    assert(Seq::<Seq<char>>::empty() + listing(props, depth as nat, prefix@) =~= listing(
        props,
        depth as nat,
        prefix@,
    ));
    out
}

/// How many levels of nested maps the lines for one looked-up map go down.
pub const ENTRY_DEPTH: usize = 1000;

/// The lines that show what a lookup found: for a map the listing of its
/// entries, for anything else the one line that `formatted` gives.
pub open spec fn found_lines(found: Option<Property>) -> Seq<Seq<char>> {
    match found {
        Some(Property::Table(inner)) => listing(&inner, ENTRY_DEPTH as nat, Seq::empty()),
        _ => seq![formatted(viewed(found))],
    }
}

/// Shows what a lookup found, line by line.
pub fn print_found(found: Option<&Property>) -> (r: Vec<String>)
    ensures
        texts(r@) == found_lines(referred(found)),
{
    match found {
        Some(Property::Table(inner)) => {
            proof {
                reveal_strlit("");
                assert(""@ =~= Seq::<char>::empty());
            }
            print_props_helper(inner, ENTRY_DEPTH, "")
        },
        _ => {
            let mut out: Vec<String> = Vec::new();
            let line = format_found(found);
            assert(texts(out@.push(line)) =~= seq![line@]);
            out.push(line);
            out
        },
    }
}

} // verus!
