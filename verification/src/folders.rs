use vstd::prelude::*;

verus! {

/// What a line of the list of library folders says.
#[derive(Debug)]
pub enum FolderLine {
    /// The line names a library folder: a number, and the folder's path.
    Folder(String),
    /// The line names something else.
    Other,
    /// The line is empty, or it holds a number and nothing after it.
    Malformed,
}

/// What a line says, apart from how it is stored.
pub enum FolderEntry {
    Folder(Seq<char>),
    Other,
    Malformed,
}

impl View for FolderLine {
    type V = FolderEntry;

    open spec fn view(&self) -> FolderEntry {
        match self {
            FolderLine::Folder(path) => FolderEntry::Folder(path@),
            FolderLine::Other => FolderEntry::Other,
            FolderLine::Malformed => FolderEntry::Malformed,
        }
    }
}

/// The first place at or after `from` that holds no tab.
pub open spec fn skip_tabs(s: Seq<char>, from: int) -> int
    decreases s.len() - from,
{
    if 0 <= from < s.len() && s[from] == '\t' {
        skip_tabs(s, from + 1)
    } else {
        from
    }
}

/// The first place at or after `from` that holds a tab, or the end.
pub open spec fn part_end(s: Seq<char>, from: int) -> int
    decreases s.len() - from,
{
    if 0 <= from < s.len() && s[from] != '\t' {
        part_end(s, from + 1)
    } else {
        from
    }
}

/// Where the part with the number `n` starts, among the parts that tabs
/// separate and that are not empty.
pub open spec fn part_start(s: Seq<char>, n: nat) -> int
    decreases n,
{
    if n == 0 {
        skip_tabs(s, 0)
    } else {
        skip_tabs(s, part_end(s, part_start(s, (n - 1) as nat)))
    }
}

/// The part with the number `n`, if there are that many.
pub open spec fn part(s: Seq<char>, n: nat) -> Option<Seq<char>> {
    let start = part_start(s, n);
    if 0 <= start < s.len() {
        Some(s.subrange(start, part_end(s, start)))
    } else {
        None
    }
}

/// A text without its double quotes.
pub open spec fn unquoted(s: Seq<char>) -> Seq<char>
    decreases s.len(),
{
    if s.len() == 0 {
        s
    } else if s.last() == '"' {
        unquoted(s.drop_last())
    } else {
        unquoted(s.drop_last()).push(s.last())
    }
}

/// A text in which each pair of backslashes, taken from the left, has
/// become one backslash.
pub open spec fn unescaped(s: Seq<char>) -> Seq<char>
    decreases s.len(),
{
    if s.len() == 0 {
        s
    } else if s.len() >= 2 && s[0] == '\\' && s[1] == '\\' {
        seq!['\\'] + unescaped(s.skip(2))
    } else {
        seq![s[0]] + unescaped(s.drop_first())
    }
}

/// Whether a character is a decimal digit.
pub open spec fn is_digit(c: char) -> bool {
    '0' <= c && c <= '9'
}

/// The number that decimal digits spell.
pub open spec fn digits_value(s: Seq<char>) -> nat
    decreases s.len(),
{
    if s.len() == 0 {
        0
    } else {
        digits_value(s.drop_last()) * 10 + (s.last() as u32 - '0' as u32) as nat
    }
}

/// Whether each character is a decimal digit.
pub open spec fn all_digits(s: Seq<char>) -> bool {
    forall|i: int| 0 <= i < s.len() ==> is_digit(#[trigger] s[i])
}

/// A text without the plus sign at its start, if it has one.
pub open spec fn unsigned(s: Seq<char>) -> Seq<char> {
    if s.len() > 0 && s[0] == '+' {
        s.drop_first()
    } else {
        s
    }
}

/// Whether a text spells a number that `usize` holds: one decimal digit
/// or more, after a plus sign or without one.
pub open spec fn is_count(s: Seq<char>) -> bool {
    &&& unsigned(s).len() > 0
    &&& all_digits(unsigned(s))
    &&& digits_value(unsigned(s)) <= usize::MAX
}

/// What a line says, once the white space around it is gone. The parts of
/// the line are separated by tabs. A line whose first part, without its
/// quotes, is a number names a library folder: the second part, without
/// its quotes and with doubled backslashes made single, is its path.
pub open spec fn folder_entry(line: Seq<char>) -> FolderEntry {
    match part(line, 0) {
        None => FolderEntry::Malformed,
        Some(name) => if is_count(unquoted(name)) {
            match part(line, 1) {
                None => FolderEntry::Malformed,
                Some(path) => FolderEntry::Folder(unescaped(unquoted(path))),
            }
        } else {
            FolderEntry::Other
        },
    }
}

/// The text that `str::trim` of std leaves of a text with these
/// characters: the text without the white space at its start and its end.
pub uninterp spec fn trimmed(text: Seq<char>) -> Seq<char>;

/// `str::trim` of std. The result depends on the characters of the text
/// alone; which characters count as white space is left to std.
#[verifier::external_body]
fn trim(text: &str) -> (r: &str)
    ensures
        r@ == trimmed(text@),
{
    text.trim()
}

/// `String::push` of std: the character is added at the end.
#[verifier::external_body]
fn push_char(text: &mut String, c: char)
    ensures
        final(text)@ == old(text)@.push(c),
{
    text.push(c)
}

/// The characters of a text.
fn chars_of(text: &str) -> (r: Vec<char>)
    ensures
        r@ == text@,
{
    let mut out: Vec<char> = Vec::new();
    for c in it: text.chars()
        invariant
            it.seq() == text@,
            out@ == text@.take(it.index() as int),
    {
        out.push(c);
        assert(out@ =~= text@.take(it.index() + 1));
    }
    assert(out@ =~= text@);
    out
}

/// Finds the first place at or after `from` that holds no tab.
fn find_part_start(s: &Vec<char>, from: usize) -> (r: usize)
    requires
        from <= s@.len(),
    ensures
        r == skip_tabs(s@, from as int),
        from <= r <= s@.len(),
{
    let mut at = from;
    while at < s.len() && s[at] == '\t'
        invariant
            from <= at <= s@.len(),
            skip_tabs(s@, at as int) == skip_tabs(s@, from as int),
        decreases s@.len() - at,
    {
        at = at + 1;
    }
    at
}

/// Finds the first place at or after `from` that holds a tab, or the end.
fn find_part_end(s: &Vec<char>, from: usize) -> (r: usize)
    requires
        from <= s@.len(),
    ensures
        r == part_end(s@, from as int),
        from <= r <= s@.len(),
{
    let mut at = from;
    while at < s.len() && s[at] != '\t'
        invariant
            from <= at <= s@.len(),
            part_end(s@, at as int) == part_end(s@, from as int),
        decreases s@.len() - at,
    {
        at = at + 1;
    }
    at
}

/// Copies the characters from `from` up to `to`, but for double quotes.
fn without_quotes(s: &Vec<char>, from: usize, to: usize) -> (r: Vec<char>)
    requires
        from <= to <= s@.len(),
    ensures
        r@ == unquoted(s@.subrange(from as int, to as int)),
{
    let mut out: Vec<char> = Vec::new();
    let mut at = from;
    assert(s@.subrange(from as int, from as int) =~= Seq::empty());
    while at < to
        invariant
            from <= at <= to <= s@.len(),
            out@ == unquoted(s@.subrange(from as int, at as int)),
        decreases to - at,
    {
        let c = s[at];
        proof {
            let next = s@.subrange(from as int, at + 1);
            assert(next.drop_last() =~= s@.subrange(from as int, at as int));
            assert(next.last() == c);
        }
        if c != '"' {
            out.push(c);
        }
        at = at + 1;
    }
    out
}

/// The digits before a place spell no more than all digits do.
proof fn digits_value_grows(s: Seq<char>, upto: int)
    requires
        0 <= upto <= s.len(),
    ensures
        digits_value(s.take(upto)) <= digits_value(s),
    decreases s.len() - upto,
{
    if upto < s.len() {
        let next = s.take(upto + 1);
        assert(next.drop_last() =~= s.take(upto));
        digits_value_grows(s, upto + 1);
    } else {
        assert(s.take(upto) =~= s);
    }
}

/// Whether the characters spell a number that `usize` holds.
fn spells_count(s: &Vec<char>) -> (r: bool)
    ensures
        r == is_count(s@),
{
    let start: usize = if s.len() > 0 && s[0] == '+' {
        1
    } else {
        0
    };
    let ghost digits = s@.skip(start as int);
    assert(digits =~= unsigned(s@));
    if start == s.len() {
        return false;
    }
    let mut value: usize = 0;
    let mut at = start;
    assert(digits.take(0) =~= Seq::empty());
    while at < s.len()
        invariant
            start <= at <= s@.len(),
            digits == s@.skip(start as int),
            digits == unsigned(s@),
            forall|k: int| 0 <= k < at - start ==> is_digit(#[trigger] digits[k]),
            value == digits_value(digits.take(at - start)),
        decreases s@.len() - at,
    {
        let c = s[at];
        assert(digits[at - start] == c);
        if c < '0' || c > '9' {
            assert(!is_digit(digits[at - start]));
            return false;
        }
        let digit = (c as u32 - '0' as u32) as usize;
        proof {
            let next = digits.take(at - start + 1);
            assert(next.drop_last() =~= digits.take(at - start));
            assert(next.last() == c);
            digits_value_grows(digits, at - start + 1);
        }
        let tens = match value.checked_mul(10) {
            Some(tens) => tens,
            None => {
                return false;
            },
        };
        value = match tens.checked_add(digit) {
            Some(sum) => sum,
            None => {
                return false;
            },
        };
        at = at + 1;
    }
    assert(digits.take(at - start) =~= digits);
    true
}

/// Copies the characters, each pair of backslashes as one.
fn unescape(s: &Vec<char>) -> (r: String)
    ensures
        r@ == unescaped(s@),
{
    let mut out = String::new();
    let mut at: usize = 0;
    assert(s@.skip(0) =~= s@);
    assert(Seq::<char>::empty() + unescaped(s@) =~= unescaped(s@));
    while at < s.len()
        invariant
            at <= s@.len(),
            out@ + unescaped(s@.skip(at as int)) == unescaped(s@),
        decreases s@.len() - at,
    {
        let ghost rest = s@.skip(at as int);
        let ghost before = out@;
        if s[at] == '\\' && at + 1 < s.len() && s[at + 1] == '\\' {
            push_char(&mut out, '\\');
            proof {
                assert(rest.skip(2) =~= s@.skip(at + 2));
                assert(out@ + unescaped(s@.skip(at + 2)) =~= before + unescaped(rest));
            }
            at = at + 2;
        } else {
            push_char(&mut out, s[at]);
            proof {
                assert(rest.drop_first() =~= s@.skip(at + 1));
                assert(out@ + unescaped(s@.skip(at + 1)) =~= before + unescaped(rest));
            }
            at = at + 1;
        }
    }
    assert(out@ + Seq::<char>::empty() =~= out@);
    out
}

/// Says what a line says that has no white space around it.
pub fn parse_folder_line(line: &str) -> (r: FolderLine)
    ensures
        r@ == folder_entry(line@),
{
    let s = chars_of(line);
    let name_start = find_part_start(&s, 0);
    if name_start >= s.len() {
        return FolderLine::Malformed;
    }
    let name_end = find_part_end(&s, name_start);
    let name = without_quotes(&s, name_start, name_end);
    if !spells_count(&name) {
        return FolderLine::Other;
    }
    let path_start = find_part_start(&s, name_end);
    if path_start >= s.len() {
        return FolderLine::Malformed;
    }
    let path_end = find_part_end(&s, path_start);
    let path = without_quotes(&s, path_start, path_end);
    FolderLine::Folder(unescape(&path))
}

/// Says what a line of the list of library folders says, whatever white
/// space stands around it.
pub fn library_folder(line: &str) -> (r: FolderLine)
    ensures
        r@ == folder_entry(trimmed(line@)),
{
    parse_folder_line(trim(line))
}

} // verus!
