//! Performance counters of a run: instructions by kind, calls, depths and collections.
use vstd::prelude::*;
use vstd::string::StringExecFns;

use crate::byte_code::{spec_kind_name, spec_kind_of_tag, OpCodeTypes};

verus! {

/// The counters, as plain numbers.
pub struct CountersView {
    pub total_instructions: u64,
    pub opcode_counts: Seq<u64>,
    pub function_calls: u64,
    pub max_stack_depth: usize,
    pub max_call_depth: usize,
    pub gc_collections: u64,
    pub gc_bytes_freed: u64,
    pub heap_allocations: u64,
}

/// Counters of one run of the machine; there is one instruction counter per byte value.
pub struct PerfCounters {
    total_instructions: u64,
    opcode_counts: [u64; 256],
    function_calls: u64,
    max_stack_depth: usize,
    max_call_depth: usize,
    gc_collections: u64,
    gc_bytes_freed: u64,
    heap_allocations: u64,
}

impl View for PerfCounters {
    type V = CountersView;

    closed spec fn view(&self) -> CountersView {
        CountersView {
            total_instructions: self.total_instructions,
            opcode_counts: self.opcode_counts@,
            function_calls: self.function_calls,
            max_stack_depth: self.max_stack_depth,
            max_call_depth: self.max_call_depth,
            gc_collections: self.gc_collections,
            gc_bytes_freed: self.gc_bytes_freed,
            heap_allocations: self.heap_allocations,
        }
    }
}

/// Byte value `t` is counted and names an instruction kind: it is listed in the summary.
pub open spec fn is_listed(counts: Seq<u64>, t: int) -> bool {
    0 <= t < counts.len() && counts[t] > 0 && spec_kind_of_tag(t as u8) is Some
}

/// Summary order: higher counts first, equal counts by increasing byte value.
pub open spec fn comes_before(a: (u8, u64), b: (u8, u64)) -> bool {
    a.1 > b.1 || (a.1 == b.1 && a.0 < b.0)
}

/// `r` lists, in summary order, each listed byte value with its count.
pub open spec fn is_summary(counts: Seq<u64>, r: Seq<(u8, u64)>) -> bool {
    &&& forall|i: int, j: int| 0 <= i < j < r.len() ==> comes_before(r[i], r[j])
    &&& forall|e: (u8, u64)| r.contains(e) <==> (is_listed(counts, e.0 as int) && e.1 == counts[e.0 as int])
}

/// `e` is the summary entry `t` with the byte value replaced by the kind's printed name.
pub open spec fn names_entry(e: (String, u64), t: (u8, u64)) -> bool {
    e.1 == t.1 && (spec_kind_of_tag(t.0) matches Some(k) && e.0@ == spec_kind_name(k))
}

/// The sum of the counts.
pub open spec fn count_sum(counts: Seq<u64>) -> int
    decreases counts.len(),
{
    if counts.len() == 0 {
        0
    } else {
        count_sum(counts.drop_last()) + counts.last()
    }
}

/// Counting one more at `i` adds one to the sum of the counts.
proof fn lemma_count_sum_bump(counts: Seq<u64>, i: int, v: u64)
    requires
        0 <= i < counts.len(),
        v == counts[i] + 1,
    ensures
        count_sum(counts.update(i, v)) == count_sum(counts) + 1,
    decreases counts.len(),
{
    let u = counts.update(i, v);
    if i == counts.len() - 1 {
        assert(u.drop_last() =~= counts.drop_last());
    } else {
        assert(u.drop_last() =~= counts.drop_last().update(i, v));
        lemma_count_sum_bump(counts.drop_last(), i, v);
    }
}

/// Every count of `n` zeros sums to zero.
proof fn lemma_count_sum_zero(n: nat)
    ensures
        count_sum(Seq::new(n, |i: int| 0u64)) == 0,
    decreases n,
{
    if n > 0 {
        assert(Seq::new(n, |i: int| 0u64).drop_last() =~= Seq::new((n - 1) as nat, |i: int| 0u64));
        lemma_count_sum_zero((n - 1) as nat);
    }
}

impl PerfCounters {
    /// All counters at zero.
    pub fn new() -> (r: Self)
        ensures
            r@.total_instructions == 0,
            r@.opcode_counts == Seq::new(256, |i: int| 0u64),
            r@.function_calls == 0,
            r@.max_stack_depth == 0,
            r@.max_call_depth == 0,
            r@.gc_collections == 0,
            r@.gc_bytes_freed == 0,
            r@.heap_allocations == 0,
            r@.total_instructions == count_sum(r@.opcode_counts),
    {
        let counts: [u64; 256] = [0u64; 256];
        assert(counts@ =~= Seq::new(256, |i: int| 0u64));
        proof {
            lemma_count_sum_zero(256);
        }
        PerfCounters {
            total_instructions: 0,
            opcode_counts: counts,
            function_calls: 0,
            max_stack_depth: 0,
            max_call_depth: 0,
            gc_collections: 0,
            gc_bytes_freed: 0,
            heap_allocations: 0,
        }
    }

    /// The count of instructions with tag byte `discriminant`; there are 256 counters.
    pub fn opcode_count(&self, discriminant: u8) -> (r: u64)
        ensures
            self@.opcode_counts.len() == 256,
            r == self@.opcode_counts[discriminant as int],
    {
        self.opcode_counts[discriminant as usize]
    }

    /// Counts one instruction whose tag byte is `discriminant`.
    pub fn record_instruction(&mut self, discriminant: u8)
        requires
            old(self)@.total_instructions < u64::MAX,
            old(self)@.opcode_counts[discriminant as int] < u64::MAX,
        ensures
            final(self)@ == (CountersView {
                total_instructions: (old(self)@.total_instructions + 1) as u64,
                opcode_counts: old(self)@.opcode_counts.update(
                    discriminant as int,
                    (old(self)@.opcode_counts[discriminant as int] + 1) as u64,
                ),
                ..old(self)@
            }),
            old(self)@.total_instructions == count_sum(old(self)@.opcode_counts)
                ==> final(self)@.total_instructions == count_sum(final(self)@.opcode_counts),
    {
        proof {
            if (discriminant as int) < old(self)@.opcode_counts.len() {
                lemma_count_sum_bump(
                    old(self)@.opcode_counts,
                    discriminant as int,
                    (old(self)@.opcode_counts[discriminant as int] + 1) as u64,
                );
            }
        }
        self.total_instructions = self.total_instructions + 1;
        let d = discriminant as usize;
        let c = self.opcode_counts[d];
        self.opcode_counts[d] = c + 1;
    }

    /// Counts one call made at call depth `call_depth`.
    pub fn record_call(&mut self, call_depth: usize)
        requires
            old(self)@.function_calls < u64::MAX,
        ensures
            final(self)@ == (CountersView {
                function_calls: (old(self)@.function_calls + 1) as u64,
                max_call_depth: if call_depth > old(self)@.max_call_depth {
                    call_depth
                } else {
                    old(self)@.max_call_depth
                },
                ..old(self)@
            }),
    {
        self.function_calls = self.function_calls + 1;
        if call_depth > self.max_call_depth {
            self.max_call_depth = call_depth;
        }
    }

    /// Notes a stack depth.
    pub fn record_stack_depth(&mut self, depth: usize)
        ensures
            final(self)@ == (CountersView {
                max_stack_depth: if depth > old(self)@.max_stack_depth {
                    depth
                } else {
                    old(self)@.max_stack_depth
                },
                ..old(self)@
            }),
    {
        if depth > self.max_stack_depth {
            self.max_stack_depth = depth;
        }
    }

    /// Counts one collection that freed `bytes_freed` bytes.
    pub fn record_gc(&mut self, bytes_freed: usize)
        requires
            old(self)@.gc_collections < u64::MAX,
            old(self)@.gc_bytes_freed + bytes_freed <= u64::MAX,
        ensures
            final(self)@ == (CountersView {
                gc_collections: (old(self)@.gc_collections + 1) as u64,
                gc_bytes_freed: (old(self)@.gc_bytes_freed + bytes_freed) as u64,
                ..old(self)@
            }),
    {
        self.gc_collections = self.gc_collections + 1;
        self.gc_bytes_freed = self.gc_bytes_freed + bytes_freed as u64;
    }

    /// Counts one heap allocation.
    pub fn record_allocation(&mut self)
        requires
            old(self)@.heap_allocations < u64::MAX,
        ensures
            final(self)@ == (CountersView {
                heap_allocations: (old(self)@.heap_allocations + 1) as u64,
                ..old(self)@
            }),
    {
        self.heap_allocations = self.heap_allocations + 1;
    }

    /// The printed name of the instruction kind with tag byte `discriminant`, if any.
    pub fn opcode_name(discriminant: usize) -> (r: Option<String>)
        ensures
            r matches Some(s) ==> spec_kind_of_tag(discriminant as u8) matches Some(k) && s@
                == spec_kind_name(k),
            r is None ==> spec_kind_of_tag(discriminant as u8) is None,
    {
        match OpCodeTypes::from_repr(discriminant as u8) {
            Some(k) => Some(k.name()),
            None => None,
        }
    }

    /// Each counted instruction kind with its count, in summary order.
    pub fn sorted_opcode_tags(&self) -> (r: Vec<(u8, u64)>)
        ensures
            is_summary(self@.opcode_counts, r@),
    {
        let ghost counts = self@.opcode_counts;
        let mut r: Vec<(u8, u64)> = Vec::new();
        let mut t: usize = 0;
        while t < self.opcode_counts.len()
            invariant
                counts == self@.opcode_counts,
                counts.len() == 256,
                0 <= t <= 256,
                forall|i: int, j: int| 0 <= i < j < r@.len() ==> comes_before(r@[i], r@[j]),
                forall|e: (u8, u64)|
                    r@.contains(e) <==> (e.0 < t && is_listed(counts, e.0 as int) && e.1
                        == counts[e.0 as int]),
            decreases 256 - t,
        {
            let count = self.opcode_counts[t];
            let tag = t as u8;
            if count > 0 && OpCodeTypes::from_repr(tag).is_some() {
                let x = (tag, count);
                let mut k: usize = 0;
                while k < r.len() && !(count > r[k].1 || (count == r[k].1 && tag < r[k].0))
                    invariant
                        0 <= k <= r@.len(),
                        forall|j: int| 0 <= j < k ==> comes_before(r@[j], x),
                        forall|i: int, j: int| 0 <= i < j < r@.len() ==> comes_before(r@[i], r@[j]),
                        forall|e: (u8, u64)|
                            r@.contains(e) <==> (e.0 < t && is_listed(counts, e.0 as int) && e.1
                                == counts[e.0 as int]),
                        x == (tag, count),
                        tag == t,
                        t < 256,
                        counts == self@.opcode_counts,
                        counts.len() == 256,
                        count == counts[t as int],
                        is_listed(counts, t as int),
                    decreases r@.len() - k,
                {
                    assert(r@.contains(r@[k as int]));
                    k = k + 1;
                }
                let ghost before = r@;
                assert(k < before.len() ==> comes_before(x, before[k as int]));
                r.insert(k, x);
                assert forall|i: int, j: int| 0 <= i < j < r@.len() implies comes_before(
                    r@[i],
                    r@[j],
                ) by {
                    if j < k {
                        assert(comes_before(before[i], before[j]));
                    } else if j == k {
                        assert(comes_before(before[i], x));
                    } else if i < k {
                        assert(comes_before(before[i], before[j - 1]));
                    } else if i == k {
                        if j - 1 > k {
                            assert(comes_before(before[k as int], before[j - 1]));
                        }
                    } else {
                        assert(comes_before(before[i - 1], before[j - 1]));
                    }
                }
                assert forall|e: (u8, u64)|
                    r@.contains(e) <==> (e.0 < t + 1 && is_listed(counts, e.0 as int) && e.1
                        == counts[e.0 as int]) by {
                    if r@.contains(e) {
                        let i = choose|i: int| 0 <= i < r@.len() && r@[i] == e;
                        if i < k {
                            assert(before.contains(before[i]));
                        } else if i > k {
                            assert(before.contains(before[i - 1]));
                        }
                    }
                    if e.0 < t && is_listed(counts, e.0 as int) && e.1 == counts[e.0 as int] {
                        assert(before.contains(e));
                        let i = choose|i: int| 0 <= i < before.len() && before[i] == e;
                        if i < k {
                            assert(r@[i] == e);
                        } else {
                            assert(r@[i + 1] == e);
                        }
                    }
                    if e == x {
                        assert(r@[k as int] == x);
                    }
                }
            } else {
                assert forall|e: (u8, u64)|
                    r@.contains(e) <==> (e.0 < t + 1 && is_listed(counts, e.0 as int) && e.1
                        == counts[e.0 as int]) by {
                    if e.0 == t && r@.contains(e) {
                        assert(e.0 < t);
                    }
                }
            }
            t = t + 1;
        }
        r
    }

    /// Each counted instruction kind's printed name with its count, in summary order.
    pub fn sorted_opcode_entries(&self) -> (r: Vec<(String, u64)>)
        ensures
            exists|tags: Seq<(u8, u64)>|
                {
                    &&& is_summary(self@.opcode_counts, tags)
                    &&& tags.len() == r@.len()
                    &&& forall|i: int| 0 <= i < r@.len() ==> names_entry(r@[i], tags[i])
                },
    {
        let tags = self.sorted_opcode_tags();
        let mut r: Vec<(String, u64)> = Vec::new();
        let mut i: usize = 0;
        while i < tags.len()
            invariant
                0 <= i <= tags@.len(),
                is_summary(self@.opcode_counts, tags@),
                r@.len() == i,
                forall|j: int| 0 <= j < i ==> names_entry(r@[j], tags@[j]),
            decreases tags@.len() - i,
        {
            let (tag, count) = tags[i];
            assert(tags@.contains(tags@[i as int]));
            match OpCodeTypes::from_repr(tag) {
                Some(k) => {
                    r.push((k.name(), count));
                },
                None => {
                    assert(false);
                },
            }
            i = i + 1;
        }
        r
    }

    /// The number of instructions run.
    pub fn total_instructions(&self) -> (r: u64)
        ensures
            r == self@.total_instructions,
    {
        self.total_instructions
    }

    /// The number of calls made.
    pub fn function_calls(&self) -> (r: u64)
        ensures
            r == self@.function_calls,
    {
        self.function_calls
    }

    /// The deepest stack noted.
    pub fn max_stack_depth(&self) -> (r: usize)
        ensures
            r == self@.max_stack_depth,
    {
        self.max_stack_depth
    }

    /// The deepest call depth noted.
    pub fn max_call_depth(&self) -> (r: usize)
        ensures
            r == self@.max_call_depth,
    {
        self.max_call_depth
    }

    /// The number of collections.
    pub fn gc_collections(&self) -> (r: u64)
        ensures
            r == self@.gc_collections,
    {
        self.gc_collections
    }

    /// The number of bytes the collections freed.
    pub fn gc_bytes_freed(&self) -> (r: u64)
        ensures
            r == self@.gc_bytes_freed,
    {
        self.gc_bytes_freed
    }

    /// The number of heap allocations.
    pub fn heap_allocations(&self) -> (r: u64)
        ensures
            r == self@.heap_allocations,
    {
        self.heap_allocations
    }
}

} // verus!
