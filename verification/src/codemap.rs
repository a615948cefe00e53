//! Maps character positions in a source text to line numbers.
use std::collections::BTreeMap;
use vstd::prelude::*;
use vstd::std_specs::iter::IteratorSpec;

verus! {

broadcast use vstd::std_specs::btree::group_btree_axioms;

/// For each line of a source text: the character index at which it starts, mapped to its
/// line number counted from 0.
pub struct Codemap {
    lines_start_at_1: bool,
    position_starts_at_1: bool,
    line_endings: BTreeMap<usize, usize>,
}

/// The number of newline characters among the first `i` characters of `s`.
pub open spec fn newlines_before(s: Seq<char>, i: int) -> nat
    decreases i,
{
    if i <= 0 || s.len() == 0 {
        0
    } else if i > s.len() {
        newlines_before(s, s.len() as int)
    } else {
        newlines_before(s, i - 1) + (if s[i - 1] == '\n' { 1nat } else { 0nat })
    }
}

/// Character `i` of `s` begins a line: it is the first character, or follows a newline.
pub open spec fn starts_line(s: Seq<char>, i: int) -> bool {
    0 <= i < s.len() && (i == 0 || s[i - 1] == '\n')
}

/// The line-start table of `s`: every index that begins a line, mapped to the number of
/// newlines before it.
pub open spec fn spec_index_lines(s: Seq<char>) -> Map<usize, usize> {
    Map::new(|k: usize| starts_line(s, k as int), |k: usize| newlines_before(s, k as int) as usize)
}

/// `k` is the greatest key of `m` below `bound`.
pub open spec fn is_max_key_below(m: Map<usize, usize>, bound: int, k: usize) -> bool {
    &&& m.contains_key(k)
    &&& k < bound
    &&& forall|j: usize| m.contains_key(j) && j < bound ==> j <= k
}

/// The value at the greatest key below `bound`, plus `base`; `None` where no key lies below `bound`.
pub open spec fn spec_lookup(m: Map<usize, usize>, bound: int, base: int) -> Option<int> {
    if exists|k: usize| is_max_key_below(m, bound, k) {
        let k = choose|k: usize| is_max_key_below(m, bound, k);
        Some(m[k] + base)
    } else {
        None
    }
}

proof fn lemma_newlines_before_le(s: Seq<char>, i: int)
    requires
        0 <= i <= s.len(),
    ensures
        newlines_before(s, i) <= i,
    decreases i,
{
    if i > 0 && s.len() > 0 {
        lemma_newlines_before_le(s, i - 1);
    }
}

/// The last index at or before `p` that begins a line.
pub open spec fn last_line_start(s: Seq<char>, p: int) -> int
    decreases p,
{
    if p <= 0 || s[p - 1] == '\n' {
        p
    } else {
        last_line_start(s, p - 1)
    }
}

proof fn lemma_last_line_start(s: Seq<char>, p: int)
    requires
        0 <= p < s.len(),
    ensures
        0 <= last_line_start(s, p) <= p,
        starts_line(s, last_line_start(s, p)),
        newlines_before(s, last_line_start(s, p)) == newlines_before(s, p),
        forall|j: int| starts_line(s, j) && j <= p ==> j <= last_line_start(s, p),
    decreases p,
{
    if p <= 0 || s[p - 1] == '\n' {
    } else {
        lemma_last_line_start(s, p - 1);
        assert forall|j: int| starts_line(s, j) && j <= p implies j <= last_line_start(s, p) by {
            if j == p {
                assert(s[p - 1] == '\n');
            }
        }
    }
}

/// Every character of a text lies on the line numbered one more than the count of newlines
/// before it: looking up position `p` in the table built from `s` gives that number.
pub proof fn lemma_line_at_counts_newlines(s: Seq<char>, p: usize)
    requires
        p < s.len(),
        p + 1 <= usize::MAX,
    ensures
        spec_lookup(spec_index_lines(s), p + 1, 1) == Some(newlines_before(s, p as int) + 1int),
{
    let m = spec_index_lines(s);
    let k = last_line_start(s, p as int);
    lemma_last_line_start(s, p as int);
    lemma_newlines_before_le(s, k);
    let ku = k as usize;
    let b: int = p + 1;
    assert(is_max_key_below(m, b, ku));
    let c = choose|c: usize| is_max_key_below(m, b, c);
    assert(c == ku);
}

impl Codemap {
    #[verifier::type_invariant]
    spec fn line_numbers_fit(&self) -> bool {
        forall|k: usize| self.line_endings@.contains_key(k) ==> self.line_endings@[k] < usize::MAX
    }

    /// The line-start table.
    pub closed spec fn table(&self) -> Map<usize, usize> {
        self.line_endings@
    }

    /// Whether reported line numbers count from 1.
    pub closed spec fn lines_from_1(&self) -> bool {
        self.lines_start_at_1
    }

    /// Whether positions passed to `line_at` count from 1.
    pub closed spec fn positions_from_1(&self) -> bool {
        self.position_starts_at_1
    }

    /// Indexes the lines of `code`; lines are reported counting from 1, positions count from 0.
    pub fn new(code: &str) -> (r: Self)
        ensures
            r.table() == spec_index_lines(code@),
            r.lines_from_1(),
            !r.positions_from_1(),
    {
        let line_endings = Self::index_lines(code);
        Codemap { lines_start_at_1: true, position_starts_at_1: false, line_endings }
    }

    /// The line of the character at `position`: the line of the last line start at or before
    /// it; `None` where no line starts at or before it.
    pub fn line_at(&self, position: usize) -> (r: Option<usize>)
        requires
            position + (if self.positions_from_1() { 2int } else { 1int }) <= usize::MAX,
        ensures
            r matches Some(l) ==> spec_lookup(
                self.table(),
                position + (if self.positions_from_1() { 2int } else { 1int }),
                if self.lines_from_1() { 1int } else { 0int },
            ) == Some(l as int),
            r is None ==> spec_lookup(
                self.table(),
                position + (if self.positions_from_1() { 2int } else { 1int }),
                if self.lines_from_1() { 1int } else { 0int },
            ) is None,
    {
        proof {
            use_type_invariant(self);
        }
        let bound: usize = position + if self.position_starts_at_1 { 2 } else { 1 };
        let ghost m = self.line_endings@;
        let ghost items = vstd::std_specs::btree::spec_btree_map_iter(&self.line_endings).remaining();
        let ghost mut seen: int = 0;
        let mut best: Option<(usize, usize)> = None;
        for kv in it: self.line_endings.iter()
            invariant
                bound == position + (if self.positions_from_1() { 2int } else { 1int }),
                m == self.line_endings@,
                it.seq() == items,
                seen == it.index(),
                best matches Some((k, v)) ==> m.contains_key(k) && m[k] == v && k < bound,
                forall|j: int|
                    0 <= j < seen && *items[j].0 < bound ==> (best matches Some((k, v))
                        && *items[j].0 <= k),
        {
            proof {
                seen = seen + 1;
            }
            let (k, v) = kv;
            if *k < bound {
                match best {
                    Some((bk, _)) => {
                        if *k > bk {
                            best = Some((*k, *v));
                        }
                    },
                    None => {
                        best = Some((*k, *v));
                    },
                }
            }
        }
        match best {
            Some((k, v)) => {
                assert(is_max_key_below(m, bound as int, k)) by {
                    assert forall|j: usize| m.contains_key(j) && j < bound implies j <= k by {
                        assert(items.contains((&j, &m[j])));
                    }
                }
                let ghost c = choose|c: usize| is_max_key_below(m, bound as int, c);
                assert(c == k);
                Some(v + if self.lines_start_at_1 { 1 } else { 0 })
            },
            None => {
                assert forall|c: usize| !is_max_key_below(m, bound as int, c) by {
                    if m.contains_key(c) && c < bound {
                        assert(items.contains((&c, &m[c])));
                    }
                }
                None
            },
        }
    }

    fn index_lines(code: &str) -> (r: BTreeMap<usize, usize>)
        ensures
            r@ == spec_index_lines(code@),
            forall|k: usize| r@.contains_key(k) ==> r@[k] < usize::MAX,
    {
        let n = code.unicode_len();
        let ghost s = code@;
        let mut line_starts: BTreeMap<usize, usize> = BTreeMap::new();
        let mut line: usize = 0;
        let mut char_index: usize = 0;
        let mut line_started = true;
        while char_index < n
            invariant
                n == s.len(),
                s == code@,
                char_index <= n,
                line == newlines_before(s, char_index as int),
                line <= char_index,
                line_started == (char_index == 0 || s[char_index - 1] == '\n'),
                line_starts@ == Map::new(
                    |k: usize| k < char_index && starts_line(s, k as int),
                    |k: usize| newlines_before(s, k as int) as usize,
                ),
            decreases n - char_index,
        {
            let c = code.get_char(char_index);
            if line_started {
                line_starts.insert(char_index, line);
                line_started = false;
            }
            if c == '\n' {
                line_started = true;
                line = line + 1;
            }
            char_index = char_index + 1;
            assert(line_starts@ =~= Map::new(
                |k: usize| k < char_index && starts_line(s, k as int),
                |k: usize| newlines_before(s, k as int) as usize,
            ));
        }
        assert(line_starts@ =~= spec_index_lines(s));
        assert forall|k: usize| line_starts@.contains_key(k) implies line_starts@[k] < usize::MAX by {
            lemma_newlines_before_le(s, k as int);
        }
        line_starts
    }
}

} // verus!
