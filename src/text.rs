use vstd::prelude::*;

verus! {

/// Unicode `White_Space`: the characters that `str::trim` removes.
pub open spec fn is_white_space(c: char) -> bool {
    let u = c as u32;
    (0x09 <= u <= 0x0D) || u == 0x20 || u == 0x85 || u == 0xA0 || u == 0x1680 || (0x2000 <= u
        <= 0x200A) || u == 0x2028 || u == 0x2029 || u == 0x202F || u == 0x205F || u == 0x3000
}

/// `s` without its leading white space.
pub open spec fn trim_start(s: Seq<char>) -> Seq<char>
    decreases s.len(),
{
    if s.len() > 0 && is_white_space(s[0]) {
        trim_start(s.drop_first())
    } else {
        s
    }
}

/// `s` without its trailing white space.
pub open spec fn trim_end(s: Seq<char>) -> Seq<char>
    decreases s.len(),
{
    if s.len() > 0 && is_white_space(s.last()) {
        trim_end(s.drop_last())
    } else {
        s
    }
}

/// `s` without white space at either end.
pub open spec fn trim(s: Seq<char>) -> Seq<char> {
    trim_end(trim_start(s))
}

/// Whether `i` is the first position of `c` in `s`.
pub open spec fn is_first_index(s: Seq<char>, c: char, i: int) -> bool {
    0 <= i < s.len() && s[i] == c && forall|j: int| 0 <= j < i ==> s[j] != c
}

/// The first position of `c` in `s`, or -1 where `s` does not hold `c`.
pub open spec fn index_of(s: Seq<char>, c: char) -> int {
    if exists|i: int| is_first_index(s, c, i) {
        choose|i: int| is_first_index(s, c, i)
    } else {
        -1
    }
}

/// A line without the carriage return that ended it.
pub open spec fn strip_cr(s: Seq<char>) -> Seq<char> {
    if s.len() > 0 && s.last() == '\r' {
        s.drop_last()
    } else {
        s
    }
}

/// The lines of `s` as `str::lines` gives them: split after each `\n`, each
/// line without its `\n` or `\r\n`, no empty line after a final `\n`.
pub open spec fn lines_of(s: Seq<char>) -> Seq<Seq<char>>
    decreases s.len(),
{
    if s.len() == 0 {
        Seq::empty()
    } else {
        let i = index_of(s, '\n');
        if i < 0 {
            seq![s]
        } else {
            seq![strip_cr(s.take(i))] + lines_of(s.skip(i + 1))
        }
    }
}

/// The first position of `c` is the one that `is_first_index` picks out.
pub proof fn lemma_index_of(s: Seq<char>, c: char, i: int)
    requires
        is_first_index(s, c, i),
    ensures
        index_of(s, c) == i,
{
    let k = choose|k: int| is_first_index(s, c, k);
    assert(is_first_index(s, c, k));
    if k < i {
        assert(s[k] != c);
    } else if i < k {
        assert(s[i] != c);
    }
}

/// Where `s` does not hold `c`, `index_of` is -1.
pub proof fn lemma_index_of_absent(s: Seq<char>, c: char)
    requires
        forall|j: int| 0 <= j < s.len() ==> s[j] != c,
    ensures
        index_of(s, c) == -1,
{
}

/// Whether `c` is a white-space character.
pub fn white_space(c: char) -> (r: bool)
    ensures
        r == is_white_space(c),
{
    let u = c as u32;
    (0x09 <= u && u <= 0x0D) || u == 0x20 || u == 0x85 || u == 0xA0 || u == 0x1680 || (0x2000
        <= u && u <= 0x200A) || u == 0x2028 || u == 0x2029 || u == 0x202F || u == 0x205F || u
        == 0x3000
}

/// The characters of `s`, one by one.
pub fn chars_of(s: &str) -> (r: Vec<char>)
    ensures
        r@ == s@,
{
    let mut r: Vec<char> = Vec::new();
    for c in it: s.chars()
        invariant
            r@ == it.seq().take(it.index() as int),
    {
        r.push(c);
    }
    r
}

/// The bounds, within `lo..hi`, of that stretch of `cs` with its white space
/// at both ends taken off.
pub fn trim_bounds(cs: &Vec<char>, lo: usize, hi: usize) -> (r: (usize, usize))
    requires
        lo <= hi <= cs.len(),
    ensures
        lo <= r.0 <= r.1 <= hi,
        cs@.subrange(r.0 as int, r.1 as int) == trim(cs@.subrange(lo as int, hi as int)),
{
    let mut i = lo;
    while i < hi && white_space(cs[i])
        invariant
            lo <= i <= hi <= cs.len(),
            trim_start(cs@.subrange(lo as int, hi as int)) == trim_start(
                cs@.subrange(i as int, hi as int),
            ),
        decreases hi - i,
    {
        assert(cs@.subrange(i as int, hi as int).drop_first() =~= cs@.subrange(
            i + 1,
            hi as int,
        ));
        i = i + 1;
    }
    assert(trim_start(cs@.subrange(i as int, hi as int)) == cs@.subrange(i as int, hi as int));
    let mut j = hi;
    while j > i && white_space(cs[j - 1])
        invariant
            lo <= i <= j <= hi <= cs.len(),
            trim_end(cs@.subrange(i as int, hi as int)) == trim_end(
                cs@.subrange(i as int, j as int),
            ),
        decreases j - i,
    {
        assert(cs@.subrange(i as int, j as int).drop_last() =~= cs@.subrange(
            i as int,
            j - 1,
        ));
        j = j - 1;
    }
    (i, j)
}

/// The first position at or after `from` where `cs` holds `c`.
pub fn find_from(cs: &Vec<char>, c: char, from: usize) -> (r: Option<usize>)
    requires
        from <= cs.len(),
    ensures
        match r {
            Some(i) => from <= i < cs.len() && index_of(cs@.skip(from as int), c) == i - from,
            None => index_of(cs@.skip(from as int), c) == -1 && forall|j: int|
                from <= j < cs.len() ==> cs@[j] != c,
        },
{
    let mut i = from;
    while i < cs.len()
        invariant
            from <= i <= cs.len(),
            forall|j: int| from <= j < i ==> cs@[j] != c,
        decreases cs.len() - i,
    {
        if cs[i] == c {
            proof {
                lemma_index_of(cs@.skip(from as int), c, i - from);
            }
            return Some(i);
        }
        i = i + 1;
    }
    proof {
        lemma_index_of_absent(cs@.skip(from as int), c);
    }
    None
}

/// Whether `cs` holds `c` within `lo..hi`; where it does, the first such position.
pub fn find_within(cs: &Vec<char>, c: char, lo: usize, hi: usize) -> (r: Option<usize>)
    requires
        lo <= hi <= cs.len(),
    ensures
        match r {
            Some(i) => lo <= i < hi && index_of(cs@.subrange(lo as int, hi as int), c) == i - lo,
            None => index_of(cs@.subrange(lo as int, hi as int), c) == -1 && forall|j: int|
                lo <= j < hi ==> cs@[j] != c,
        },
{
    let mut i = lo;
    while i < hi
        invariant
            lo <= i <= hi <= cs.len(),
            forall|j: int| lo <= j < i ==> cs@[j] != c,
        decreases hi - i,
    {
        if cs[i] == c {
            proof {
                lemma_index_of(cs@.subrange(lo as int, hi as int), c, i - lo);
            }
            return Some(i);
        }
        i = i + 1;
    }
    proof {
        lemma_index_of_absent(cs@.subrange(lo as int, hi as int), c);
    }
    None
}

/// The stretches of `cs` that `lines_of` gives, as bounds.
pub open spec fn spans_view(cs: Seq<char>, spans: Seq<(usize, usize)>) -> Seq<Seq<char>> {
    spans.map_values(|p: (usize, usize)| cs.subrange(p.0 as int, p.1 as int))
}

/// The bounds of each line of `cs`.
pub fn line_spans(cs: &Vec<char>) -> (r: Vec<(usize, usize)>)
    ensures
        spans_view(cs@, r@) == lines_of(cs@),
        forall|k: int| 0 <= k < r.len() ==> #[trigger] r@[k].0 <= r@[k].1 <= cs.len(),
{
    let mut r: Vec<(usize, usize)> = Vec::new();
    let mut pos: usize = 0;
    assert(cs@.skip(0) =~= cs@);
    while pos < cs.len()
        invariant
            pos <= cs.len(),
            spans_view(cs@, r@) + lines_of(cs@.skip(pos as int)) == lines_of(cs@),
            forall|k: int| 0 <= k < r.len() ==> #[trigger] r@[k].0 <= r@[k].1 <= cs.len(),
        decreases cs.len() - pos,
    {
        let rest = Ghost(cs@.skip(pos as int));
        match find_from(cs, '\n', pos) {
            Some(i) => {
                let mut end = i;
                if end > pos && cs[end - 1] == '\r' {
                    end = end - 1;
                }
                assert(rest@.take(i - pos) =~= cs@.subrange(pos as int, i as int));
                if i > pos {
                    assert(cs@.subrange(pos as int, i as int).drop_last() =~= cs@.subrange(
                        pos as int,
                        i - 1,
                    ));
                }
                assert(rest@.skip(i - pos + 1) =~= cs@.skip(i + 1));
                let ghost old_r = r@;
                r.push((pos, end));
                assert(spans_view(cs@, r@) =~= spans_view(cs@, old_r).push(
                    cs@.subrange(pos as int, end as int),
                ));
                assert(spans_view(cs@, r@) + lines_of(cs@.skip(i + 1)) =~= spans_view(cs@, old_r)
                    + lines_of(rest@));
                pos = i + 1;
            },
            None => {
                assert(rest@ =~= cs@.subrange(pos as int, cs.len() as int));
                let ghost old_r = r@;
                r.push((pos, cs.len()));
                assert(spans_view(cs@, r@) =~= spans_view(cs@, old_r).push(rest@));
                assert(cs@.skip(cs.len() as int) =~= Seq::<char>::empty());
                assert(spans_view(cs@, r@) + lines_of(cs@.skip(cs.len() as int)) =~= spans_view(
                    cs@,
                    old_r,
                ) + lines_of(rest@));
                pos = cs.len();
            },
        }
    }
    assert(cs@.skip(pos as int) =~= Seq::<char>::empty());
    assert(spans_view(cs@, r@) + lines_of(cs@.skip(pos as int)) =~= spans_view(cs@, r@));
    r
}

} // verus!
