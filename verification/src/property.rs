use vstd::prelude::*;
use vstd::string::StringSliceAdditionalSpecFns;
use vstd::utf8::encode_utf8_decode_utf8;

verus! {

/// What a property is, apart from how it is stored: a number, a text, or a
/// mapping from keys to further values.
pub enum Value {
    Uint32(u32),
    Uint64(u64),
    Text(Seq<char>),
    Table(Map<Seq<char>, Value>),
}

/// A mapping from keys to values, as a decoded map holds it.
pub type Table = Map<Seq<char>, Value>;

/// One node of a decoded property tree.
#[derive(Debug)]
pub enum Property {
    Uint32(u32),
    Uint64(u64),
    Table(PropertyMap),
    String(String),
}

/// The entries of one map of a property tree. No key occurs twice.
#[derive(Debug)]
pub struct PropertyMap {
    entries: Vec<(String, Property)>,
}

/// The mapping that a list of entries stands for: each entry is written in
/// turn, so of two entries with one key the later one stays.
spec fn table_of(entries: Seq<(String, Property)>) -> Table
    decreases entries,
{
    if entries.len() == 0 {
        Map::empty()
    } else {
        table_of(entries.drop_last()).insert(entries.last().0@, entries.last().1@)
    }
}

impl View for Property {
    type V = Value;

    open spec fn view(&self) -> Value
        decreases self,
    {
        match self {
            Property::Uint32(v) => Value::Uint32(*v),
            Property::Uint64(v) => Value::Uint64(*v),
            Property::Table(m) => Value::Table(m@),
            Property::String(s) => Value::Text(s@),
        }
    }
}

impl View for PropertyMap {
    type V = Table;

    closed spec fn view(&self) -> Table
        decreases self,
    {
        table_of(self.entries@)
    }
}

/// Whether two texts hold the same characters.
pub fn str_eq(a: &str, b: &str) -> (r: bool)
    ensures
        r == (a@ == b@),
{
    let x = a.as_bytes();
    let y = b.as_bytes();
    if x.len() != y.len() {
        return false;
    }
    let mut i: usize = 0;
    while i < x.len()
        invariant
            i <= x.len(),
            x.len() == y.len(),
            x@ == a.spec_bytes(),
            y@ == b.spec_bytes(),
            forall|k: int| 0 <= k < i ==> x@[k] == y@[k],
        decreases x.len() - i,
    {
        if x[i] != y[i] {
            return false;
        }
        i = i + 1;
    }
    proof {
        assert(x@ =~= y@);
        encode_utf8_decode_utf8(a@);
        encode_utf8_decode_utf8(b@);
    }
    true
}

/// Whether no two entries have the same key.
spec fn keys_differ(entries: Seq<(String, Property)>) -> bool {
    forall|i: int, j: int|
        0 <= i < j < entries.len() ==> (#[trigger] entries[i]).0@ != (#[trigger] entries[j]).0@
}

/// A key is in the mapping exactly if some entry has it.
proof fn table_of_has_key(entries: Seq<(String, Property)>, key: Seq<char>)
    ensures
        table_of(entries).contains_key(key) <==> exists|i: int|
            0 <= i < entries.len() && (#[trigger] entries[i]).0@ == key,
    decreases entries.len(),
{
    if entries.len() > 0 {
        let front = entries.drop_last();
        let last = entries.last();
        assert(table_of(entries) == table_of(front).insert(last.0@, last.1@));
        table_of_has_key(front, key);
        if table_of(entries).contains_key(key) {
            if last.0@ == key {
                assert(entries[entries.len() - 1].0@ == key);
            } else {
                assert(table_of(front).contains_key(key));
                let i = choose|i: int| 0 <= i < front.len() && (#[trigger] front[i]).0@ == key;
                assert(entries[i].0@ == key);
            }
        }
        if exists|i: int| 0 <= i < entries.len() && (#[trigger] entries[i]).0@ == key {
            let i = choose|i: int| 0 <= i < entries.len() && (#[trigger] entries[i]).0@ == key;
            if i < entries.len() - 1 {
                assert(front[i].0@ == key);
                assert(table_of(front).contains_key(key));
            } else {
                assert(last.0@ == key);
            }
        }
    } else {
        assert(table_of(entries) == Map::<Seq<char>, Value>::empty());
    }
}

/// Where keys differ, each entry's key maps to that entry's value.
proof fn table_of_entry(entries: Seq<(String, Property)>, i: int)
    requires
        keys_differ(entries),
        0 <= i < entries.len(),
    ensures
        table_of(entries).contains_key(entries[i].0@),
        table_of(entries)[entries[i].0@] == entries[i].1@,
    decreases entries.len(),
{
    let front = entries.drop_last();
    let last = entries.last();
    assert(table_of(entries) == table_of(front).insert(last.0@, last.1@));
    if i < entries.len() - 1 {
        assert(front[i] == entries[i]);
        assert(entries[i].0@ != entries[entries.len() - 1].0@);
        table_of_entry(front, i);
    }
}

/// Where keys differ, putting a new value in an entry's place writes that
/// value under the entry's key.
proof fn table_of_update(entries: Seq<(String, Property)>, i: int, entry: (String, Property))
    requires
        keys_differ(entries),
        0 <= i < entries.len(),
        entry.0@ == entries[i].0@,
    ensures
        keys_differ(entries.update(i, entry)),
        table_of(entries.update(i, entry)) == table_of(entries).insert(entry.0@, entry.1@),
    decreases entries.len(),
{
    let after = entries.update(i, entry);
    let front = entries.drop_last();
    assert forall|a: int, b: int| 0 <= a < b < after.len() implies (#[trigger] after[a]).0@ != (
    #[trigger] after[b]).0@ by {
        assert(entries[a].0@ != entries[b].0@);
    }
    let last = entries.last();
    assert(table_of(entries) == table_of(front).insert(last.0@, last.1@));
    assert(table_of(after) == table_of(after.drop_last()).insert(after.last().0@, after.last().1@));
    if i == entries.len() - 1 {
        assert(after.drop_last() =~= front);
        assert(table_of(after) =~= table_of(entries).insert(entry.0@, entry.1@));
    } else {
        assert(after.drop_last() =~= front.update(i, entry));
        assert(front[i] == entries[i]);
        table_of_update(front, i, entry);
        assert(entries[i].0@ != entries[entries.len() - 1].0@);
        assert(after.last() == entries.last());
        assert(table_of(after) =~= table_of(entries).insert(entry.0@, entry.1@));
    }
}

/// Where keys differ, the mapping has as many keys as there are entries.
proof fn table_of_len(entries: Seq<(String, Property)>)
    requires
        keys_differ(entries),
    ensures
        table_of(entries).dom().finite(),
        table_of(entries).dom().len() == entries.len(),
    decreases entries.len(),
{
    if entries.len() > 0 {
        let front = entries.drop_last();
        let last = entries.last();
        assert(table_of(entries) == table_of(front).insert(last.0@, last.1@));
        assert forall|i: int, j: int| 0 <= i < j < front.len() implies (#[trigger] front[i]).0@ != (
        #[trigger] front[j]).0@ by {
            assert(entries[i].0@ != entries[j].0@);
        }
        table_of_len(front);
        table_of_has_key(front, last.0@);
        if table_of(front).contains_key(last.0@) {
            let i = choose|i: int| 0 <= i < front.len() && (#[trigger] front[i]).0@ == last.0@;
            assert(entries[i].0@ != entries[entries.len() - 1].0@);
        }
    }
}

impl PropertyMap {
    #[verifier::type_invariant]
    spec fn well_formed(&self) -> bool {
        keys_differ(self.entries@)
    }

    /// How many entries the map holds.
    pub closed spec fn spec_len(&self) -> nat {
        self.entries@.len()
    }

    /// The key of the entry at `i`, in the order in which the map holds its
    /// entries.
    pub closed spec fn spec_key(&self, i: int) -> Seq<char> {
        self.entries@[i].0@
    }

    /// The property of the entry at `i`.
    pub closed spec fn spec_value(&self, i: int) -> Property {
        self.entries@[i].1
    }

    /// The property that the map holds under `key`, if it holds the key.
    pub closed spec fn spec_get(&self, key: Seq<char>) -> Option<Property> {
        if exists|i: int| 0 <= i < self.entries@.len() && (#[trigger] self.entries@[i]).0@ == key {
            let i = choose|i: int|
                0 <= i < self.entries@.len() && (#[trigger] self.entries@[i]).0@ == key;
            Some(self.entries@[i].1)
        } else {
            None
        }
    }

    /// A map without entries.
    pub fn new() -> (r: PropertyMap)
        ensures
            r@ == Map::<Seq<char>, Value>::empty(),
            r.spec_len() == 0,
    {
        PropertyMap { entries: Vec::new() }
    }

    /// Where the entry with this key stands, if there is one.
    fn position(&self, key: &str) -> (r: Option<usize>)
        ensures
            match r {
                Some(i) => i < self.entries@.len() && self.entries@[i as int].0@ == key@,
                None => forall|i: int|
                    0 <= i < self.entries@.len() ==> (#[trigger] self.entries@[i]).0@ != key@,
            },
    {
        let mut i: usize = 0;
        while i < self.entries.len()
            invariant
                i <= self.entries@.len(),
                forall|k: int| 0 <= k < i ==> (#[trigger] self.entries@[k]).0@ != key@,
            decreases self.entries@.len() - i,
        {
            if str_eq(self.entries[i].0.as_str(), key) {
                return Some(i);
            }
            i = i + 1;
        }
        None
    }

    /// The property under `key`, if the map has that key.
    pub fn get(&self, key: &str) -> (r: Option<&Property>)
        ensures
            match r {
                Some(p) => self@.contains_key(key@) && self@[key@] == p@ && self.spec_get(key@)
                    == Some(*p),
                None => !self@.contains_key(key@) && self.spec_get(key@) is None,
            },
    {
        proof {
            use_type_invariant(self);
            table_of_has_key(self.entries@, key@);
        }
        match self.position(key) {
            Some(i) => {
                proof {
                    table_of_entry(self.entries@, i as int);
                    self.only_entry(i as int);
                }
                Some(&self.entries[i].1)
            },
            None => None,
        }
    }

    /// Where keys differ, the entry with a key is the one that `spec_get`
    /// picks.
    proof fn only_entry(&self, i: int)
        requires
            keys_differ(self.entries@),
            0 <= i < self.entries@.len(),
        ensures
            self.spec_get(self.entries@[i].0@) == Some(self.entries@[i].1),
    {
        let key = self.entries@[i].0@;
        let j = choose|j: int|
            0 <= j < self.entries@.len() && (#[trigger] self.entries@[j]).0@ == key;
        if j < i {
            assert(self.entries@[j].0@ != self.entries@[i].0@);
        } else if i < j {
            assert(self.entries@[i].0@ != self.entries@[j].0@);
        }
    }

    /// Writes `value` under `key`. A value that was there before is
    /// replaced: of two writes to one key the later one stays. The entry of
    /// a key that was there keeps its place; the entry of a new key goes
    /// to the end.
    pub fn insert(&mut self, key: String, value: Property)
        ensures
            final(self)@ == old(self)@.insert(key@, value@),
            old(self)@.contains_key(key@) ==> final(self).spec_len() == old(self).spec_len(),
            !old(self)@.contains_key(key@) ==> {
                &&& final(self).spec_len() == old(self).spec_len() + 1
                &&& final(self).spec_key(old(self).spec_len() as int) == key@
            },
            forall|i: int|
                0 <= i < old(self).spec_len() ==> {
                    #[trigger] final(self).spec_key(i) == old(self).spec_key(i)
                },
            forall|i: int|
                0 <= i < final(self).spec_len() ==> {
                    #[trigger] final(self).spec_value(i) == if final(self).spec_key(i) == key@ {
                        value
                    } else {
                        old(self).spec_value(i)
                    }
                },
    {
        proof {
            use_type_invariant(&*self);
            table_of_has_key(self.entries@, key@);
        }
        let at = self.position(key.as_str());
        let mut entries: Vec<(String, Property)> = Vec::new();
        std::mem::swap(&mut entries, &mut self.entries);
        match at {
            Some(i) => {
                proof {
                    table_of_update(entries@, i as int, (key, value));
                }
                entries.set(i, (key, value));
            },
            None => {
                assert(entries@.push((key, value)).drop_last() =~= entries@);
                entries.push((key, value));
            },
        }
        self.entries = entries;
    }

    /// How many keys the map has: as many as it holds entries.
    pub fn len(&self) -> (r: usize)
        ensures
            self@.dom().finite(),
            r == self@.dom().len(),
            r == self.spec_len(),
    {
        proof {
            use_type_invariant(self);
            table_of_len(self.entries@);
        }
        self.entries.len()
    }

    /// The key and the property of the entry at `i`, or nothing where the
    /// map holds `i` entries or fewer. Each key of the map is the key of
    /// one entry, and of no other.
    pub fn entry_at(&self, i: usize) -> (r: Option<(&str, &Property)>)
        ensures
            match r {
                Some((key, value)) => {
                    &&& i < self.spec_len()
                    &&& key@ == self.spec_key(i as int)
                    &&& *value == self.spec_value(i as int)
                    &&& self@.contains_key(key@)
                    &&& self@[key@] == value@
                    &&& self.spec_get(key@) == Some(*value)
                    &&& forall|j: int|
                        0 <= j < self.spec_len() && j != i ==> self.spec_key(j) != key@
                },
                None => i >= self.spec_len(),
            },
    {
        proof {
            use_type_invariant(self);
        }
        if i >= self.entries.len() {
            return None;
        }
        proof {
            table_of_entry(self.entries@, i as int);
            self.only_entry(i as int);
            assert forall|j: int| 0 <= j < self.entries@.len() && j != i implies self.entries@[j].0@
                != self.entries@[i as int].0@ by {
                if j < i {
                    assert(self.entries@[j].0@ != self.entries@[i as int].0@);
                } else {
                    assert(self.entries@[i as int].0@ != self.entries@[j].0@);
                }
            }
        }
        Some((self.entries[i].0.as_str(), &self.entries[i].1))
    }

    /// The entry of a map that has exactly one, or nothing where the map
    /// has none or several.
    pub fn take_only(self) -> (r: Option<(String, Property)>)
        ensures
            match r {
                Some(entry) => self@ == Map::<Seq<char>, Value>::empty().insert(
                    entry.0@,
                    entry.1@,
                ),
                None => !(self@.dom().finite() && self@.dom().len() == 1),
            },
    {
        proof {
            use_type_invariant(&self);
            table_of_len(self.entries@);
        }
        if self.entries.len() != 1 {
            return None;
        }
        let mut entries = self.entries;
        let ghost all = entries@;
        let only = entries.pop();
        proof {
            assert(all.drop_last() =~= entries@);
            assert(table_of(all) == table_of(all.drop_last()).insert(all.last().0@, all.last().1@));
        }
        only
    }
}

} // verus!
