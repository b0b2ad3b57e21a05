use vstd::prelude::*;

verus! {

/// Whether a regular expression compiles.
pub uninterp spec fn regex_valid(pattern: Seq<char>) -> bool;

/// Whether a compiled regular expression matches somewhere in a text.
pub uninterp spec fn regex_matches(pattern: Seq<char>, text: Seq<char>) -> bool;

/// Relies on `regex::Regex::new` (whether the pattern compiles) and on
/// `Regex::is_match` (whether it matches the text).
#[verifier::external_body]
fn pattern_matches(pattern: &str, text: &str) -> (r: Option<bool>)
    ensures
        r is Some == regex_valid(pattern@),
        r matches Some(b) ==> b == regex_matches(pattern@, text@),
{
    regex::Regex::new(pattern).ok().map(|re| re.is_match(text))
}

/// Whether `i` is the first pattern of `table` that matches `path`.
pub open spec fn is_first_match(table: Seq<Seq<char>>, path: Seq<char>, i: int) -> bool {
    &&& 0 <= i < table.len()
    &&& regex_matches(table[i], path)
    &&& forall|j: int| 0 <= j < i ==> !regex_matches(#[trigger] table[j], path)
}

/// The index of the first pattern that matches `path`, in table order.
pub open spec fn first_match(table: Seq<Seq<char>>, path: Seq<char>) -> Option<int> {
    if exists|i: int| is_first_match(table, path, i) {
        Some(choose|i: int| is_first_match(table, path, i))
    } else {
        None
    }
}

/// The patterns that requests are matched against, in registration order.
/// Each compiles, and no two are equal.
pub struct RoutingTable {
    patterns: Vec<String>,
}

impl View for RoutingTable {
    type V = Seq<Seq<char>>;

    closed spec fn view(&self) -> Seq<Seq<char>> {
        self.patterns@.map_values(|p: String| p@)
    }
}

impl RoutingTable {
    /// Each pattern compiles, and no two are equal.
    pub open spec fn wf(&self) -> bool {
        &&& forall|i: int| 0 <= i < self@.len() ==> regex_valid(#[trigger] self@[i])
        &&& forall|i: int, j: int|
            0 <= i < j < self@.len() ==> #[trigger] self@[i] != #[trigger] self@[j]
    }

    /// A table with no patterns.
    pub fn new() -> (r: RoutingTable)
        ensures
            r.wf(),
            r@ == Seq::<Seq<char>>::empty(),
    {
        let r = RoutingTable { patterns: Vec::new() };
        assert(r@ =~= Seq::<Seq<char>>::empty());
        r
    }

    /// The number of patterns.
    pub fn len(&self) -> (r: usize)
        ensures
            r == self@.len(),
    {
        self.patterns.len()
    }

    /// Registers `pattern` and gives the slot of its handler. A pattern that
    /// is there already keeps its slot, so the last handler registered for
    /// it wins; a new one takes the next slot. A pattern that does not
    /// compile is refused, and the table is left as it was.
    pub fn route(&mut self, pattern: &str) -> (r: Option<usize>)
        requires
            old(self).wf(),
        ensures
            final(self).wf(),
            r is None <==> !regex_valid(pattern@),
            r is None ==> final(self)@ == old(self)@,
            r matches Some(i) ==> i < final(self)@.len() && final(self)@[i as int] == pattern@,
            r matches Some(i) ==> (old(self)@.contains(pattern@) ==> final(self)@ == old(self)@),
            r matches Some(i) ==> (!old(self)@.contains(pattern@) ==> final(self)@ == old(
                self,
            )@.push(pattern@)),
    {
        if pattern_matches(pattern, "").is_none() {
            return None;
        }
        let p = pattern.to_owned();
        let mut i: usize = 0;
        while i < self.patterns.len()
            invariant
                i <= self.patterns.len(),
                p@ == pattern@,
                self.wf(),
                self@ == old(self)@,
                regex_valid(pattern@),
                forall|j: int| 0 <= j < i ==> self@[j] != pattern@,
            decreases self.patterns.len() - i,
        {
            if self.patterns[i] == p {
                assert(self@[i as int] == pattern@);
                return Some(i);
            }
            i = i + 1;
        }
        let ghost before = self@;
        self.patterns.push(p);
        assert(self@ =~= before.push(pattern@));
        Some(i)
    }

    /// The slot of the first pattern, in table order, that matches `path`.
    pub fn select(&self, path: &str) -> (r: Option<usize>)
        requires
            self.wf(),
        ensures
            r matches Some(i) ==> first_match(self@, path@) == Some(i as int),
            r is None ==> first_match(self@, path@) is None,
    {
        let mut i: usize = 0;
        while i < self.patterns.len()
            invariant
                self.wf(),
                i <= self.patterns.len(),
                forall|j: int| 0 <= j < i ==> !regex_matches(#[trigger] self@[j], path@),
            decreases self.patterns.len() - i,
        {
            assert(self@[i as int] == self.patterns@[i as int]@);
            assert(regex_valid(self@[i as int]));
            if pattern_matches(self.patterns[i].as_str(), path) == Some(true) {
                proof {
                    lemma_first_match(self@, path@, i as int);
                }
                return Some(i);
            }
            i = i + 1;
        }
        None
    }
}

/// The first matching pattern is the one that `is_first_match` picks out.
pub proof fn lemma_first_match(table: Seq<Seq<char>>, path: Seq<char>, i: int)
    requires
        is_first_match(table, path, i),
    ensures
        first_match(table, path) == Some(i),
{
    let k = choose|k: int| is_first_match(table, path, k);
    assert(is_first_match(table, path, k));
    if k < i {
        assert(!regex_matches(table[k], path));
    } else if i < k {
        assert(!regex_matches(table[i], path));
    }
}

/// Where two distinct patterns of a table both match a path, routing picks
/// exactly one of the table's patterns: the earliest one that matches, which
/// stands no later than either of them.
pub proof fn lemma_one_route_taken(table: Seq<Seq<char>>, path: Seq<char>, i: int, j: int)
    requires
        0 <= i < table.len(),
        0 <= j < table.len(),
        i != j,
        table[i] != table[j],
        regex_matches(table[i], path),
        regex_matches(table[j], path),
    ensures
        first_match(table, path) matches Some(k) && 0 <= k <= i && k <= j && regex_matches(
            table[k],
            path,
        ),
{
    lemma_earliest_match(table, path, i);
    let k = choose|k: int| is_first_match(table, path, k);
    lemma_first_match(table, path, k);
    if k > i {
        assert(!regex_matches(table[i], path));
    }
    if k > j {
        assert(!regex_matches(table[j], path));
    }
}

proof fn lemma_earliest_match(table: Seq<Seq<char>>, path: Seq<char>, i: int)
    requires
        0 <= i < table.len(),
        regex_matches(table[i], path),
    ensures
        exists|k: int| is_first_match(table, path, k),
    decreases i,
{
    if forall|j: int| 0 <= j < i ==> !regex_matches(#[trigger] table[j], path) {
        assert(is_first_match(table, path, i));
    } else {
        let j = choose|j: int| 0 <= j < i && regex_matches(#[trigger] table[j], path);
        lemma_earliest_match(table, path, j);
    }
}

} // verus!
