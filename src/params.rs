use vstd::prelude::*;
use vstd::string::StrSliceExecFns;
use crate::text::{chars_of, find_within, index_of, trim, trim_bounds};

verus! {

/// A key and a value, as split from a `key<sep>value` line.
pub struct KeyValue {
    pub key: String,
    pub value: String,
}

/// The key of `key<sep>value`: what stands before the first `sep`, trimmed.
pub open spec fn kv_key(s: Seq<char>, sep: char) -> Seq<char> {
    trim(s.take(index_of(s, sep)))
}

/// The value of `key<sep>value`: all after the first `sep`, trimmed.
pub open spec fn kv_value(s: Seq<char>, sep: char) -> Seq<char> {
    trim(s.skip(index_of(s, sep) + 1))
}

/// Splits the stretch `lo..hi` of `s` (whose characters are `cs`) at its first `sep`.
pub fn key_value_within(s: &str, cs: &Vec<char>, lo: usize, hi: usize, sep: char) -> (r: KeyValue)
    requires
        cs@ == s@,
        lo <= hi <= cs.len(),
        cs@.subrange(lo as int, hi as int).contains(sep),
    ensures
        r.key@ == kv_key(cs@.subrange(lo as int, hi as int), sep),
        r.value@ == kv_value(cs@.subrange(lo as int, hi as int), sep),
{
    let ghost line = cs@.subrange(lo as int, hi as int);
    let idx = match find_within(cs, sep, lo, hi) {
        Some(i) => i,
        None => {
            proof {
                let k = choose|k: int| 0 <= k < line.len() && line[k] == sep;
                assert(cs@[lo + k] == sep);
            }
            lo
        },
    };
    assert(line.take(idx - lo) =~= cs@.subrange(lo as int, idx as int));
    assert(line.skip(idx - lo + 1) =~= cs@.subrange(idx + 1, hi as int));
    let (ka, kb) = trim_bounds(cs, lo, idx);
    let (va, vb) = trim_bounds(cs, idx + 1, hi);
    let key = s.substring_char(ka, kb).to_owned();
    let value = s.substring_char(va, vb).to_owned();
    KeyValue { key, value }
}

impl KeyValue {
    /// Splits `key:value` at its first colon.
    pub fn from_text(text: &str) -> (r: KeyValue)
        requires
            text@.contains(':'),
        ensures
            r.key@ == kv_key(text@, ':'),
            r.value@ == kv_value(text@, ':'),
    {
        KeyValue::from_text_char(text, ':')
    }

    /// Splits `key<seperator>value` at its first separator.
    pub fn from_text_char(text: &str, seperator: char) -> (r: KeyValue)
        requires
            text@.contains(seperator),
        ensures
            r.key@ == kv_key(text@, seperator),
            r.value@ == kv_value(text@, seperator),
    {
        let cs = chars_of(text);
        assert(cs@.subrange(0, cs.len() as int) =~= cs@);
        key_value_within(text, &cs, 0, cs.len(), seperator)
    }
}

/// The key and value of each entry.
pub open spec fn entry_pairs(kvs: Seq<KeyValue>) -> Seq<(Seq<char>, Seq<char>)> {
    kvs.map_values(|kv: KeyValue| (kv.key@, kv.value@))
}

/// The mapping that a sequence of pairs gives when each is inserted in
/// turn: where keys are equal, the last pair wins.
pub open spec fn pairs_map(s: Seq<(Seq<char>, Seq<char>)>) -> Map<Seq<char>, Seq<char>>
    decreases s.len(),
{
    if s.len() == 0 {
        Map::empty()
    } else {
        pairs_map(s.drop_last()).insert(s.last().0, s.last().1)
    }
}

/// A mapping from names to values, such as headers or decoded parameters.
pub struct Params {
    entries: Vec<KeyValue>,
}

impl View for Params {
    type V = Map<Seq<char>, Seq<char>>;

    closed spec fn view(&self) -> Map<Seq<char>, Seq<char>> {
        pairs_map(entry_pairs(self.entries@))
    }
}

impl Params {
    /// The empty mapping.
    pub fn new() -> (r: Params)
        ensures
            r@ == Map::<Seq<char>, Seq<char>>::empty(),
    {
        let r = Params { entries: Vec::new() };
        assert(entry_pairs(r.entries@) =~= Seq::empty());
        r
    }

    /// The mapping that inserting each entry in turn gives.
    pub fn from_entries(entries: Vec<KeyValue>) -> (r: Params)
        ensures
            r@ == pairs_map(entry_pairs(entries@)),
    {
        Params { entries }
    }

    /// Sets `key` to `value`, replacing an earlier value.
    pub fn insert(&mut self, key: String, value: String)
        ensures
            final(self)@ == old(self)@.insert(key@, value@),
    {
        let ghost before = self.entries@;
        self.entries.push(KeyValue { key, value });
        assert(entry_pairs(self.entries@).drop_last() =~= entry_pairs(before));
    }

    /// The value of `key`, if it has one.
    pub fn get(&self, key: &str) -> (r: Option<&String>)
        ensures
            r.is_some() == self@.contains_key(key@),
            r matches Some(v) ==> v@ == self@[key@],
    {
        let k = key.to_owned();
        let ghost s = entry_pairs(self.entries@);
        let mut i = self.entries.len();
        assert(s.take(i as int) =~= s);
        while i > 0
            invariant
                i <= self.entries.len(),
                s == entry_pairs(self.entries@),
                k@ == key@,
                pairs_map(s).contains_key(key@) == pairs_map(s.take(i as int)).contains_key(key@),
                pairs_map(s).contains_key(key@) ==> pairs_map(s)[key@] == pairs_map(
                    s.take(i as int),
                )[key@],
            decreases i,
        {
            assert(s.take(i as int).drop_last() =~= s.take(i - 1));
            if self.entries[i - 1].key == k {
                return Some(&self.entries[i - 1].value);
            }
            i = i - 1;
        }
        None
    }

    /// Whether `key` has a value.
    pub fn contains_key(&self, key: &str) -> (r: bool)
        ensures
            r == self@.contains_key(key@),
    {
        self.get(key).is_some()
    }
}

} // verus!
