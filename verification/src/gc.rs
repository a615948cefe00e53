//! The garbage-collected heap: an arena of objects addressed by index, with a free list for
//! slot reuse and a gray stack for tricolor marking.
use vstd::prelude::*;

use crate::object::{spec_refs, spec_size, Obj, ObjKind};

verus! {

/// A reference to an object of the heap: the index of its slot.
#[derive(Clone, Copy, PartialEq, Eq, Structural, Debug, Hash)]
pub struct GcRef(pub u32);


/// The heap arena. A slot holds an object or is free; free slots are listed for reuse.
pub struct Heap {
    pub objects: Vec<Option<Obj>>,
    pub free_list: Vec<u32>,
    pub gray_stack: Vec<u32>,
    pub bytes_allocated: usize,
    pub next_gc: usize,
}

// ---------------------------------------------------------------------------
// The heap, as mathematics
// ---------------------------------------------------------------------------

/// Slot `i` of `s` holds an object.
pub open spec fn live(s: Seq<Option<Obj>>, i: int) -> bool {
    0 <= i < s.len() && s[i] is Some
}

/// Slot `i` of `s` holds a marked object.
pub open spec fn marked(s: Seq<Option<Obj>>, i: int) -> bool {
    live(s, i) && s[i]->0.is_marked
}

/// Every object that the object in slot `i` refers to, and that is live, is marked.
pub open spec fn children_marked(s: Seq<Option<Obj>>, i: int) -> bool {
    forall|c: GcRef| #[trigger]
        spec_refs(s[i]->0.kind).contains(c) && live(s, c.0 as int) ==> marked(s, c.0 as int)
}

/// The tricolor invariant: gray slots are marked, and a marked object that is not gray has
/// all its live children marked.
pub open spec fn tricolor(s: Seq<Option<Obj>>, gray: Seq<u32>) -> bool {
    &&& forall|k: int| 0 <= k < gray.len() ==> marked(s, gray[k] as int)
    &&& forall|i: int| marked(s, i) && !gray.contains(i as u32) ==> children_marked(s, i)
}

/// The marked objects are closed under reference: no marked object refers to a live
/// unmarked one.
pub open spec fn marks_closed(s: Seq<Option<Obj>>) -> bool {
    forall|i: int| marked(s, i) ==> children_marked(s, i)
}

/// `t` is `s` with some objects newly marked and nothing else changed.
pub open spec fn only_marks_added(s: Seq<Option<Obj>>, t: Seq<Option<Obj>>) -> bool {
    &&& t.len() == s.len()
    &&& forall|i: int|
        #![trigger s[i], t[i]]
        0 <= i < s.len() ==> (match s[i] {
            None => t[i] is None,
            Some(o) => t[i] matches Some(p) && p.kind == o.kind && (o.is_marked ==> p.is_marked),
        })
}

/// The object in slot `i` marked.
pub open spec fn with_mark(o: Obj) -> Obj {
    Obj { is_marked: true, kind: o.kind }
}

/// The number of live unmarked objects in `s`.
pub open spec fn unmarked_count(s: Seq<Option<Obj>>) -> nat
    decreases s.len(),
{
    if s.len() == 0 {
        0
    } else {
        unmarked_count(s.drop_last()) + (match s.last() {
            Some(o) => if o.is_marked {
                0nat
            } else {
                1nat
            },
            None => 0nat,
        })
    }
}

/// The live object in slot `j` refers to the object in slot `i`.
pub open spec fn points_to(s: Seq<Option<Obj>>, j: int, i: int) -> bool {
    live(s, j) && 0 <= i <= u32::MAX && spec_refs(s[j]->0.kind).contains(GcRef(i as u32))
}

/// Object `i` can be reached from `roots` in at most `n` steps through live objects.
pub open spec fn reachable_within(s: Seq<Option<Obj>>, roots: Set<int>, n: nat, i: int) -> bool
    decreases n,
{
    if n == 0 {
        roots.contains(i)
    } else {
        reachable_within(s, roots, (n - 1) as nat, i) || exists|j: int|
            #[trigger] points_to(s, j, i) && reachable_within(s, roots, (n - 1) as nat, j)
    }
}

/// The reference `r` names a slot of `s`.
pub open spec fn in_arena(s: Seq<Option<Obj>>, r: GcRef) -> bool {
    (r.0 as int) < s.len()
}

/// `b` tells whether the reference `r` names a slot of `s` holding a marked object.
pub open spec fn tells_marked(s: Seq<Option<Obj>>, r: GcRef, b: bool) -> bool {
    b == marked(s, r.0 as int)
}

/// Object `i` can be reached from `roots` through live objects.
pub open spec fn reachable(s: Seq<Option<Obj>>, roots: Set<int>, i: int) -> bool {
    exists|n: nat| reachable_within(s, roots, n, i)
}

/// `s` with exactly its live objects reachable from `roots` marked.
pub open spec fn with_reachable_marks(s: Seq<Option<Obj>>, roots: Set<int>) -> Seq<Option<Obj>> {
    Seq::new(
        s.len(),
        |i: int|
            match s[i] {
                Some(o) => Some(Obj { is_marked: reachable(s, roots, i), kind: o.kind }),
                None => None,
            },
    )
}

/// The next collection threshold after a collection that left `bytes` allocated.
pub open spec fn next_threshold(bytes: int) -> int {
    if bytes * 2 < 1024 * 1024 {
        1024 * 1024int
    } else {
        bytes * 2
    }
}

/// The slots of `s` that hold marked objects.
pub open spec fn marked_set(s: Seq<Option<Obj>>) -> Set<int> {
    Set::new(|i: int| marked(s, i))
}

/// What sweeping does to one slot: a marked object stays, unmarked; an unmarked one is freed.
pub open spec fn swept(o: Option<Obj>) -> Option<Obj> {
    match o {
        Some(obj) => if obj.is_marked {
            Some(Obj { is_marked: false, kind: obj.kind })
        } else {
            None
        },
        None => None,
    }
}

/// The arena after sweeping `s`.
pub open spec fn swept_slots(s: Seq<Option<Obj>>) -> Seq<Option<Obj>> {
    Seq::new(s.len(), |i: int| swept(s[i]))
}

/// The slots freed by sweeping `s[0..n]`, in increasing order.
pub open spec fn freed_slots(s: Seq<Option<Obj>>, n: int) -> Seq<u32>
    decreases n,
{
    if n <= 0 || n > s.len() {
        Seq::empty()
    } else {
        let rest = freed_slots(s, n - 1);
        match s[n - 1] {
            Some(obj) => if obj.is_marked {
                rest
            } else {
                rest.push((n - 1) as u32)
            },
            None => rest,
        }
    }
}

/// The byte count after sweeping `s[0..n]`, starting from `bytes`: each freed object's size is
/// taken off, stopping at zero.
pub open spec fn bytes_after_sweep(s: Seq<Option<Obj>>, n: int, bytes: int) -> int
    decreases n,
{
    if n <= 0 || n > s.len() {
        bytes
    } else {
        let before = bytes_after_sweep(s, n - 1, bytes);
        match s[n - 1] {
            Some(obj) => if obj.is_marked {
                before
            } else if before >= spec_size(obj) {
                before - spec_size(obj)
            } else {
                0
            },
            None => before,
        }
    }
}

impl Heap {
    /// The slots of the arena.
    pub open spec fn slots(&self) -> Seq<Option<Obj>> {
        self.objects@
    }

    /// The free slots, the next to reuse last.
    pub open spec fn free_slots(&self) -> Seq<u32> {
        self.free_list@
    }

    /// The gray slots, the next to process last.
    pub open spec fn gray(&self) -> Seq<u32> {
        self.gray_stack@
    }

    /// Listed free slots are distinct and free, gray slots lie in the arena, and every slot
    /// has an index that fits in a reference.
    pub open spec fn wf(&self) -> bool {
        &&& self.objects@.len() <= u32::MAX + 1
        &&& self.free_list@.no_duplicates()
        &&& forall|k: int|
            0 <= k < self.free_list@.len() ==> (self.free_list@[k] < self.objects@.len()
                && self.objects@[self.free_list@[k] as int] is None)
        &&& forall|k: int| 0 <= k < self.gray_stack@.len() ==> self.gray_stack@[k] < self.objects@.len()
    }

    /// Every live object's size fits in a `usize`.
    pub open spec fn sizes_fit(&self) -> bool {
        forall|i: int| live(self.objects@, i) ==> spec_size(self.objects@[i]->0) <= usize::MAX
    }

    /// `r` refers to a live object.
    pub open spec fn spec_is_valid(&self, r: GcRef) -> bool {
        live(self.slots(), r.0 as int)
    }

    /// An empty heap whose first collection comes after 1 MiB.
    pub fn new() -> (r: Self)
        ensures
            r.wf(),
            r.sizes_fit(),
            r.slots() == Seq::<Option<Obj>>::empty(),
            r.free_slots() == Seq::<u32>::empty(),
            r.gray() == Seq::<u32>::empty(),
            r.bytes_allocated == 0,
            r.next_gc == 1024 * 1024,
    {
        Heap {
            objects: Vec::new(),
            free_list: Vec::new(),
            gray_stack: Vec::new(),
            bytes_allocated: 0,
            next_gc: 1024 * 1024,
        }
    }

    /// Stores `obj` in a free slot (the last one listed), or in a new slot at the end, and
    /// returns its reference; its size is added to the allocated bytes.
    pub fn allocate(&mut self, obj: Obj) -> (r: GcRef)
        requires
            old(self).wf(),
            spec_size(obj) <= usize::MAX,
            old(self).bytes_allocated + spec_size(obj) <= usize::MAX,
            old(self).free_slots().len() > 0 || old(self).slots().len() <= u32::MAX,
        ensures
            final(self).wf(),
            old(self).sizes_fit() ==> final(self).sizes_fit(),
            !old(self).spec_is_valid(r),
            final(self).spec_is_valid(r),
            final(self).slots()[r.0 as int] == Some(obj),
            forall|i: int| 0 <= i < old(self).slots().len() && i != r.0 ==> final(self).slots()[i]
                == old(self).slots()[i],
            old(self).free_slots().len() > 0 ==> {
                &&& r.0 == old(self).free_slots().last()
                &&& final(self).slots() == old(self).slots().update(r.0 as int, Some(obj))
                &&& final(self).free_slots() == old(self).free_slots().drop_last()
            },
            old(self).free_slots().len() == 0 ==> {
                &&& r.0 == old(self).slots().len()
                &&& final(self).slots() == old(self).slots().push(Some(obj))
                &&& final(self).free_slots() == old(self).free_slots()
            },
            final(self).gray() == old(self).gray(),
            final(self).bytes_allocated == old(self).bytes_allocated + spec_size(obj),
            final(self).next_gc == old(self).next_gc,
    {
        let size = obj.size();
        self.bytes_allocated = self.bytes_allocated + size;
        let ghost free0 = self.free_list@;
        match self.free_list.pop() {
            Some(free_idx) => {
                proof {
                    assert(free0.last() == free_idx);
                    assert(free0[free0.len() - 1] == free_idx);
                }
                self.objects.set(free_idx as usize, Some(obj));
                proof {
                    assert forall|k: int| 0 <= k < self.free_list@.len() implies self.free_list@[k]
                        != free_idx by {
                        assert(free0[k] == self.free_list@[k]);
                    }
                    assert forall|k: int|
                        0 <= k < self.free_list@.len() implies (self.free_list@[k]
                        < self.objects@.len() && self.objects@[self.free_list@[k] as int] is None) by {
                        assert(free0[k] == self.free_list@[k]);
                    }
                    assert(self.free_list@.no_duplicates()) by {
                        assert forall|a: int, b: int| 0 <= a < self.free_list@.len() && 0 <= b < self.free_list@.len() && a != b implies self.free_list@[a] != self.free_list@[b] by {
                            assert(free0[a] == self.free_list@[a]);
                            assert(free0[b] == self.free_list@[b]);
                        }
                    }
                    assert forall|i: int| old(self).sizes_fit() && live(self.objects@, i) implies spec_size(self.objects@[i]->0) <= usize::MAX by {
                        if i != free_idx {
                            assert(live(old(self).objects@, i));
                        }
                    }
                    assert forall|k: int| 0 <= k < self.gray_stack@.len() implies self.gray_stack@[k] < self.objects@.len() by {
                        assert(old(self).gray_stack@[k] < old(self).objects@.len());
                    }
                }
                GcRef(free_idx)
            },
            None => {
                let idx = self.objects.len() as u32;
                self.objects.push(Some(obj));
                proof {
                    assert forall|k: int|
                        0 <= k < self.free_list@.len() implies (self.free_list@[k]
                        < self.objects@.len() && self.objects@[self.free_list@[k] as int] is None) by {
                        assert(old(self).objects@[old(self).free_list@[k] as int] is None);
                    }
                    assert forall|i: int| old(self).sizes_fit() && live(self.objects@, i) implies spec_size(self.objects@[i]->0) <= usize::MAX by {
                        if i < old(self).objects@.len() {
                            assert(live(old(self).objects@, i));
                        }
                    }
                    assert forall|k: int| 0 <= k < self.gray_stack@.len() implies self.gray_stack@[k] < self.objects@.len() by {
                        assert(old(self).gray_stack@[k] < old(self).objects@.len());
                    }
                }
                GcRef(idx)
            },
        }
    }

    /// The object `r` refers to.
    pub fn get(&self, r: GcRef) -> (o: &Obj)
        requires
            self.spec_is_valid(r),
        ensures
            Some(*o) == self.slots()[r.0 as int],
    {
        self.objects[r.0 as usize].as_ref().unwrap()
    }

    /// Whether `r` refers to a live object.
    pub fn is_valid(&self, r: GcRef) -> (b: bool)
        ensures
            b == self.spec_is_valid(r),
    {
        let idx = r.0 as usize;
        if idx < self.objects.len() {
            self.objects[idx].is_some()
        } else {
            false
        }
    }

    /// Marks the object `r` refers to, if it is live and unmarked, and puts it on the gray stack.
    pub fn mark_object(&mut self, r: GcRef)
        requires
            old(self).wf(),
        ensures
            final(self).wf(),
            final(self).bytes_allocated == old(self).bytes_allocated,
            final(self).next_gc == old(self).next_gc,
            final(self).free_slots() == old(self).free_slots(),
            if live(old(self).slots(), r.0 as int) && !marked(old(self).slots(), r.0 as int) {
                &&& final(self).slots() == old(self).slots().update(
                    r.0 as int,
                    Some(with_mark(old(self).slots()[r.0 as int]->0)),
                )
                &&& final(self).gray() == old(self).gray().push(r.0)
            } else {
                &&& final(self).slots() == old(self).slots()
                &&& final(self).gray() == old(self).gray()
            },
    {
        let idx = r.0 as usize;
        if idx < self.objects.len() {
            let mut slot: Option<Obj> = None;
            core::mem::swap(&mut slot, &mut self.objects[idx]);
            match slot {
                Some(obj) => {
                    if !obj.is_marked {
                        let kind: ObjKind = obj.kind;
                        self.objects.set(idx, Some(Obj { is_marked: true, kind }));
                        self.gray_stack.push(r.0);
                    } else {
                        self.objects.set(idx, Some(obj));
                    }
                },
                None => {
                    self.objects.set(idx, None);
                },
            }
            proof {
                assert forall|k: int|
                    0 <= k < self.free_list@.len() implies (self.free_list@[k] < self.objects@.len()
                    && self.objects@[self.free_list@[k] as int] is None) by {
                    if self.free_list@[k] == idx {
                        assert(old(self).objects@[idx as int] is None);
                    }
                }
                assert forall|k: int| 0 <= k < self.gray_stack@.len() implies self.gray_stack@[k] < self.objects@.len() by {
                    if k < old(self).gray_stack@.len() {
                        assert(old(self).gray_stack@[k] == self.gray_stack@[k]);
                    }
                }
            }
        }
        proof {
            if live(old(self).slots(), r.0 as int) && !marked(old(self).slots(), r.0 as int) {
            } else {
                assert(self.objects@ =~= old(self).objects@);
            }
        }
    }

    /// The object `r` refers to, for update; the heap afterwards holds whatever the caller
    /// leaves there.
    pub fn get_mut(&mut self, r: GcRef) -> (o: &mut Obj)
        requires
            live(old(self).slots(), r.0 as int),
        ensures
            Some(*o) == old(self).slots()[r.0 as int],
            final(self).slots() == old(self).slots().update(r.0 as int, Some(*final(o))),
            final(self).free_slots() == old(self).free_slots(),
            final(self).gray() == old(self).gray(),
            final(self).bytes_allocated == old(self).bytes_allocated,
            final(self).next_gc == old(self).next_gc,
    {
        self.objects[r.0 as usize].as_mut().unwrap()
    }

    /// Marks each live object of `refs` that is not marked yet, putting it on the gray stack.
    #[verifier::spinoff_prover]
    #[verifier::rlimit(40)]
    pub fn mark_all(&mut self, refs: &Vec<GcRef>)
        requires
            old(self).wf(),
        ensures
            final(self).wf(),
            only_marks_added(old(self).slots(), final(self).slots()),
            forall|i: int| #[trigger] marked(final(self).slots(), i) <==> (marked(old(self).slots(), i) || (
                live(old(self).slots(), i) && 0 <= i <= u32::MAX && refs@.contains(GcRef(i as u32)))),
            forall|i: int| marked(final(self).slots(), i) && !marked(old(self).slots(), i) ==> final(self).gray().contains(i as u32),
            final(self).gray().take(old(self).gray().len() as int) == old(self).gray(),
            final(self).gray().len() >= old(self).gray().len(),
            forall|k: int| old(self).gray().len() <= k < final(self).gray().len() ==> marked(final(self).slots(), final(self).gray()[k] as int),
            final(self).free_slots() == old(self).free_slots(),
            final(self).bytes_allocated == old(self).bytes_allocated,
            final(self).next_gc == old(self).next_gc,
    {
        let ghost s0 = self.objects@;
        let ghost g0 = self.gray_stack@;
        let mut j: usize = 0;
        while j < refs.len()
            invariant
                0 <= j <= refs@.len(),
                s0 == old(self).slots(),
                g0 == old(self).gray(),
                self.wf(),
                only_marks_added(s0, self.objects@),
                forall|i: int| #[trigger] marked(self.objects@, i) <==> (marked(s0, i) || (live(s0, i) && 0 <= i
                    <= u32::MAX && exists|q: int| 0 <= q < j && refs@[q] == GcRef(i as u32))),
                forall|i: int| marked(self.objects@, i) && !marked(s0, i) ==> self.gray_stack@.contains(i as u32),
                self.gray_stack@.take(g0.len() as int) == g0,
                self.gray_stack@.len() >= g0.len(),
                forall|k: int| g0.len() <= k < self.gray_stack@.len() ==> marked(self.objects@, self.gray_stack@[k] as int),
                self.free_list@ == old(self).free_list@,
                self.bytes_allocated == old(self).bytes_allocated,
                self.next_gc == old(self).next_gc,
            decreases refs@.len() - j,
        {
            let c = refs[j];
            let ghost before = self.objects@;
            let ghost gbefore = self.gray_stack@;
            self.mark_object(c);
            j = j + 1;
            proof {
                let s1 = self.objects@;
                assert(GcRef(c.0 as int as u32) == c);
                assert forall|i: int| #[trigger] marked(s1, i) <==> (marked(s0, i) || (live(s0, i) && 0 <= i
                    <= u32::MAX && exists|q: int| 0 <= q < j && refs@[q] == GcRef(i as u32))) by {
                    assert(marked(before, i) <==> (marked(s0, i) || (live(s0, i) && 0 <= i <= u32::MAX
                        && exists|q: int| 0 <= q < j - 1 && refs@[q] == GcRef(i as u32))));
                    assert(marked(s1, i) <==> (marked(before, i) || (i == c.0 as int && live(before, i))));
                    if 0 <= i < s0.len() {
                        assert(s0[i] is Some <==> before[i] is Some);
                    }
                    if i == c.0 as int {
                        assert(refs@[j - 1] == GcRef(i as u32));
                    } else if 0 <= i <= u32::MAX {
                        if exists|q: int| 0 <= q < j && refs@[q] == GcRef(i as u32) {
                            let q = choose|q: int| 0 <= q < j && refs@[q] == GcRef(i as u32);
                            if q == j - 1 {
                                assert(GcRef(i as u32).0 as int == i);
                            }
                        }
                    }
                }
                if live(before, c.0 as int) && !marked(before, c.0 as int) {
                    assert(self.gray_stack@[self.gray_stack@.len() - 1] == c.0);
                    assert forall|i: int| marked(s1, i) && !marked(s0, i) implies self.gray_stack@.contains(i as u32) by {
                        if i != c.0 {
                            assert(gbefore.contains(i as u32));
                            let w = choose|w: int| 0 <= w < gbefore.len() && gbefore[w] == i as u32;
                            assert(self.gray_stack@[w] == i as u32);
                        }
                    }
                    assert(self.gray_stack@.take(g0.len() as int) =~= g0) by {
                        assert(gbefore.take(g0.len() as int) == g0);
                    }
                    assert forall|k: int| g0.len() <= k < self.gray_stack@.len() implies marked(s1, self.gray_stack@[k] as int) by {
                        if k < gbefore.len() {
                            assert(self.gray_stack@[k] == gbefore[k]);
                        }
                    }
                }
            }
        }
        proof {
            assert forall|i: int| #[trigger] marked(self.objects@, i) <==> (marked(s0, i) || (live(s0, i) && 0 <= i
                <= u32::MAX && refs@.contains(GcRef(i as u32)))) by {
                if 0 <= i <= u32::MAX && refs@.contains(GcRef(i as u32)) {
                    let q = choose|q: int| 0 <= q < refs@.len() && refs@[q] == GcRef(i as u32);
                }
            }
        }
    }

    /// Marks every live object that the (live) object `r` refers to, putting the newly marked
    /// ones on the gray stack.
    #[verifier::spinoff_prover]
    #[verifier::rlimit(40)]
    fn blacken_object(&mut self, r: GcRef)
        requires
            old(self).wf(),
            marked(old(self).slots(), r.0 as int),
            forall|k: int| 0 <= k < old(self).gray().len() ==> marked(old(self).slots(), old(self).gray()[k] as int),
        ensures
            final(self).wf(),
            only_marks_added(old(self).slots(), final(self).slots()),
            children_marked(final(self).slots(), r.0 as int),
            final(self).gray().take(old(self).gray().len() as int) == old(self).gray(),
            final(self).gray().len() >= old(self).gray().len(),
            forall|k: int| 0 <= k < final(self).gray().len() ==> marked(final(self).slots(), final(self).gray()[k] as int),
            forall|i: int| marked(final(self).slots(), i) && !marked(old(self).slots(), i) ==> final(self).gray().contains(i as u32),
            forall|i: int| #[trigger] marked(final(self).slots(), i) && !marked(old(self).slots(), i)
                ==> 0 <= i <= u32::MAX && spec_refs(old(self).slots()[r.0 as int]->0.kind).contains(GcRef(i as u32)),
            final(self).gray().len() + unmarked_count(final(self).slots()) == old(self).gray().len()
                + unmarked_count(old(self).slots()),
            final(self).free_slots() == old(self).free_slots(),
            final(self).bytes_allocated == old(self).bytes_allocated,
            final(self).next_gc == old(self).next_gc,
    {
        let refs: Vec<GcRef> = match &self.objects[r.0 as usize] {
            Some(obj) => obj.kind.get_references(),
            None => Vec::new(),
        };
        let ghost s0 = self.objects@;
        let ghost g0 = self.gray_stack@;
        let ghost kind = s0[r.0 as int]->0.kind;
        assert forall|k: int| 0 <= k < self.gray_stack@.len() implies marked(
            self.objects@,
            self.gray_stack@[k] as int,
        ) by {
            assert(self.gray_stack@[k] == old(self).gray()[k]);
        }
        let mut j: usize = 0;
        while j < refs.len()
            invariant
                0 <= j <= refs@.len(),
                refs@.to_set() == spec_refs(kind),
                s0 == old(self).slots(),
                g0 == old(self).gray(),
                kind == s0[r.0 as int]->0.kind,
                self.wf(),
                only_marks_added(s0, self.objects@),
                self.gray_stack@.take(g0.len() as int) == g0,
                self.gray_stack@.len() >= g0.len(),
                forall|k: int| 0 <= k < self.gray_stack@.len() ==> marked(self.objects@, self.gray_stack@[k] as int),
                forall|i: int| marked(self.objects@, i) && !marked(s0, i) ==> self.gray_stack@.contains(i as u32),
                self.gray_stack@.len() + unmarked_count(self.objects@) == g0.len() + unmarked_count(s0),
                forall|q: int| 0 <= q < j && live(self.objects@, refs@[q].0 as int) ==> marked(self.objects@, refs@[q].0 as int),
                forall|i: int| #[trigger] marked(self.objects@, i) && !marked(s0, i)
                    ==> 0 <= i <= u32::MAX && spec_refs(kind).contains(GcRef(i as u32)),
                self.free_list@ == old(self).free_list@,
                self.bytes_allocated == old(self).bytes_allocated,
                self.next_gc == old(self).next_gc,
            decreases refs@.len() - j,
        {
            let c = refs[j];
            let ghost before = self.objects@;
            let ghost gbefore = self.gray_stack@;
            self.mark_object(c);
            proof {
                assert(refs@.to_set().contains(c)) by {
                    assert(refs@.contains(c));
                }
                if live(before, c.0 as int) && !marked(before, c.0 as int) {
                    lemma_unmarked_count_mark(before, c.0 as int);
                    assert(GcRef(c.0 as int as u32) == c);
                    assert(self.gray_stack@.last() == c.0);
                    assert(self.gray_stack@[self.gray_stack@.len() - 1] == c.0);
                    assert forall|i: int| marked(self.objects@, i) && !marked(s0, i) implies self.gray_stack@.contains(i as u32) by {
                        if i != c.0 {
                            assert(gbefore.contains(i as u32));
                            let w = choose|w: int| 0 <= w < gbefore.len() && gbefore[w] == i as u32;
                            assert(self.gray_stack@[w] == i as u32);
                        }
                    }
                    assert(self.gray_stack@.take(g0.len() as int) =~= g0) by {
                        assert(gbefore.take(g0.len() as int) == g0);
                    }
                }
            }
            j = j + 1;
        }
        proof {
            let s = self.objects@;
            assert forall|c: GcRef| #[trigger] spec_refs(s[r.0 as int]->0.kind).contains(c) && live(s, c.0 as int) implies marked(s, c.0 as int) by {
                assert(refs@.to_set().contains(c));
                assert(refs@.contains(c));
                let q = choose|q: int| 0 <= q < refs@.len() && refs@[q] == c;
            }
        }
    }

    /// Takes objects off the gray stack and marks what each refers to, until the stack is
    /// empty; afterwards no marked object refers to a live unmarked one.
    pub fn trace_references(&mut self)
        requires
            old(self).wf(),
            tricolor(old(self).slots(), old(self).gray()),
        ensures
            final(self).wf(),
            final(self).gray().len() == 0,
            marks_closed(final(self).slots()),
            only_marks_added(old(self).slots(), final(self).slots()),
            forall|i: int| #[trigger] marked(final(self).slots(), i) ==> exists|n: nat|
                reachable_within(old(self).slots(), marked_set(old(self).slots()), n, i),
            final(self).free_slots() == old(self).free_slots(),
            final(self).bytes_allocated == old(self).bytes_allocated,
            final(self).next_gc == old(self).next_gc,
    {
        let ghost s0 = self.objects@;
        proof {
            assert forall|i: int| #[trigger] marked(s0, i) implies exists|n: nat|
                reachable_within(s0, marked_set(s0), n, i) by {
                assert(reachable_within(s0, marked_set(s0), 0, i));
            }
        }
        loop
            invariant
                self.wf(),
                tricolor(self.objects@, self.gray_stack@),
                only_marks_added(old(self).slots(), self.objects@),
                s0 == old(self).slots(),
                forall|i: int| #[trigger] marked(self.objects@, i) ==> exists|n: nat|
                    reachable_within(s0, marked_set(s0), n, i),
                self.free_list@ == old(self).free_list@,
                self.bytes_allocated == old(self).bytes_allocated,
                self.next_gc == old(self).next_gc,
            ensures
                self.gray_stack@.len() == 0,
            decreases 2 * unmarked_count(self.objects@) + self.gray_stack@.len(),
        {
            let ghost g = self.gray_stack@;
            match self.gray_stack.pop() {
                None => {
                    break;
                },
                Some(idx) => {
                    let ghost s1 = self.objects@;
                    let ghost g1 = self.gray_stack@;
                    assert(g.last() == idx);
                    assert(marked(s1, idx as int)) by {
                        assert(g[g.len() - 1] == idx);
                    }
                    assert forall|k: int| 0 <= k < g1.len() implies marked(s1, g1[k] as int) by {
                        assert(g[k] == g1[k]);
                    }
                    self.blacken_object(GcRef(idx));
                    proof {
                        let s2 = self.objects@;
                        let g2 = self.gray_stack@;
                        lemma_only_marks_added_trans(old(self).slots(), s1, s2);
                        let np = choose|n: nat| reachable_within(s0, marked_set(s0), n, idx as int);
                        assert forall|i: int| #[trigger] marked(s2, i) implies exists|n: nat|
                            reachable_within(s0, marked_set(s0), n, i) by {
                            if !marked(s1, i) {
                                assert(spec_refs(s1[idx as int]->0.kind) == spec_refs(s0[idx as int]->0.kind));
                                assert(points_to(s0, idx as int, i));
                                lemma_reachable_step(s0, marked_set(s0), np, idx as int, i);
                            }
                        }
                        assert forall|i: int| marked(s2, i) && !g2.contains(i as u32) implies children_marked(s2, i) by {
                            if i == idx {
                            } else if marked(s1, i) {
                                assert(!g1.contains(i as u32)) by {
                                    if g1.contains(i as u32) {
                                        let w = choose|w: int| 0 <= w < g1.len() && g1[w] == i as u32;
                                        assert(g2[w] == i as u32);
                                    }
                                }
                                assert(!g.contains(i as u32)) by {
                                    if g.contains(i as u32) {
                                        let w = choose|w: int| 0 <= w < g.len() && g[w] == i as u32;
                                        if w < g.len() - 1 {
                                            assert(g1[w] == i as u32);
                                        }
                                    }
                                }
                                assert(children_marked(s1, i));
                                assert forall|c: GcRef| #[trigger] spec_refs(s2[i]->0.kind).contains(c) && live(s2, c.0 as int) implies marked(s2, c.0 as int) by {
                                    assert(spec_refs(s1[i]->0.kind).contains(c));
                                }
                            }
                        }
                    }
                },
            }
        }
    }

    /// Frees every unmarked object and unmarks the others; freed slots are listed for reuse
    /// in increasing order and their sizes are taken off the allocated bytes, stopping at zero.
    pub fn sweep(&mut self)
        requires
            old(self).wf(),
            old(self).sizes_fit(),
        ensures
            final(self).wf(),
            final(self).sizes_fit(),
            final(self).slots() == swept_slots(old(self).slots()),
            final(self).free_slots() == old(self).free_slots() + freed_slots(old(self).slots(), old(self).slots().len() as int),
            final(self).bytes_allocated == bytes_after_sweep(old(self).slots(), old(self).slots().len() as int, old(self).bytes_allocated as int),
            final(self).gray() == old(self).gray(),
            final(self).next_gc == old(self).next_gc,
    {
        let ghost s0 = self.objects@;
        let ghost f0 = self.free_list@;
        let n = self.objects.len();
        let mut idx: usize = 0;
        while idx < n
            invariant
                0 <= idx <= n,
                n == s0.len(),
                s0 == old(self).slots(),
                f0 == old(self).free_slots(),
                old(self).wf(),
                old(self).sizes_fit(),
                self.objects@.len() == n,
                forall|i: int| 0 <= i < idx ==> self.objects@[i] == swept(s0[i]),
                forall|i: int| idx <= i < n ==> self.objects@[i] == s0[i],
                self.free_list@ == f0 + freed_slots(s0, idx as int),
                self.bytes_allocated == bytes_after_sweep(s0, idx as int, old(self).bytes_allocated as int),
                self.gray_stack@ == old(self).gray(),
                self.next_gc == old(self).next_gc,
            decreases n - idx,
        {
            let mut slot: Option<Obj> = None;
            core::mem::swap(&mut slot, &mut self.objects[idx]);
            match slot {
                Some(obj) => {
                    if obj.is_marked {
                        let kind: ObjKind = obj.kind;
                        self.objects.set(idx, Some(Obj { is_marked: false, kind }));
                    } else {
                        assert(live(s0, idx as int));
                        let size = obj.size();
                        self.bytes_allocated = self.bytes_allocated.saturating_sub(size);
                        self.objects.set(idx, None);
                        self.free_list.push(idx as u32);
                    }
                },
                None => {
                    self.objects.set(idx, None);
                },
            }
            idx = idx + 1;
        }
        proof {
            lemma_freed_slots_props(s0, n as int);
            let f = self.free_list@;
            assert forall|i: int| live(self.objects@, i) implies spec_size(self.objects@[i]->0) <= usize::MAX by {
                assert(live(s0, i));
            }
            assert forall|k: int| 0 <= k < self.gray_stack@.len() implies self.gray_stack@[k] < self.objects@.len() by {
                assert(old(self).gray_stack@[k] < old(self).objects@.len());
            }
            assert(self.objects@ =~= swept_slots(s0));
            assert forall|k: int| 0 <= k < f.len() implies (f[k] < self.objects@.len() && self.objects@[f[k] as int] is None) by {
                if k < f0.len() {
                    assert(f[k] == f0[k]);
                    assert(s0[f0[k] as int] is None);
                } else {
                    assert(f[k] == freed_slots(s0, n as int)[k - f0.len()]);
                }
            }
            assert forall|a: int, b: int| 0 <= a < f.len() && 0 <= b < f.len() && a != b implies f[a] != f[b] by {
                if a < f0.len() && b < f0.len() {
                    assert(f[a] == f0[a] && f[b] == f0[b]);
                } else if a >= f0.len() && b >= f0.len() {
                    assert(f[a] == freed_slots(s0, n as int)[a - f0.len()]);
                    assert(f[b] == freed_slots(s0, n as int)[b - f0.len()]);
                } else if a < f0.len() {
                    assert(s0[f0[a] as int] is None);
                    assert(f[b] == freed_slots(s0, n as int)[b - f0.len()]);
                } else {
                    assert(s0[f0[b] as int] is None);
                    assert(f[a] == freed_slots(s0, n as int)[a - f0.len()]);
                }
            }
        }
    }

    /// Sets the next collection threshold to twice the allocated bytes, but at least 1 MiB.
    pub fn update_threshold(&mut self)
        requires
            old(self).bytes_allocated * 2 <= usize::MAX,
        ensures
            final(self).next_gc == next_threshold(old(self).bytes_allocated as int),
            final(self).slots() == old(self).slots(),
            final(self).free_slots() == old(self).free_slots(),
            final(self).gray() == old(self).gray(),
            final(self).bytes_allocated == old(self).bytes_allocated,
    {
        self.next_gc = self.bytes_allocated * 2;
        if self.next_gc < 1024 * 1024 {
            self.next_gc = 1024 * 1024;
        }
    }

    /// Whether the object in slot `r` is live and marked.
    pub fn is_marked(&self, r: GcRef) -> (b: bool)
        requires
            (r.0 as int) < self.slots().len(),
        ensures
            b == marked(self.slots(), r.0 as int),
    {
        match &self.objects[r.0 as usize] {
            Some(obj) => obj.is_marked,
            None => false,
        }
    }

    /// Empties the gray stack.
    pub fn reset_gray_stack(&mut self)
        requires
            old(self).wf(),
        ensures
            final(self).wf(),
            final(self).gray() == Seq::<u32>::empty(),
            final(self).slots() == old(self).slots(),
            final(self).free_slots() == old(self).free_slots(),
            final(self).bytes_allocated == old(self).bytes_allocated,
            final(self).next_gc == old(self).next_gc,
    {
        self.gray_stack.clear();
    }
}

impl Default for Heap {
    fn default() -> (r: Self)
        ensures
            r.wf(),
            r.slots() == Seq::<Option<Obj>>::empty(),
            r.bytes_allocated == 0,
            r.next_gc == 1024 * 1024,
    {
        Heap::new()
    }
}

proof fn lemma_unmarked_count_mark(s: Seq<Option<Obj>>, i: int)
    requires
        live(s, i),
        !marked(s, i),
    ensures
        unmarked_count(s.update(i, Some(with_mark(s[i]->0)))) + 1 == unmarked_count(s),
    decreases s.len(),
{
    let t = s.update(i, Some(with_mark(s[i]->0)));
    if i == s.len() - 1 {
        assert(t.drop_last() =~= s.drop_last());
    } else {
        lemma_unmarked_count_mark(s.drop_last(), i);
        assert(t.drop_last() =~= s.drop_last().update(i, Some(with_mark(s[i]->0))));
    }
}

proof fn lemma_freed_slots_props(s: Seq<Option<Obj>>, n: int)
    requires
        0 <= n <= s.len(),
        s.len() <= u32::MAX + 1,
    ensures
        forall|k: int|
            0 <= k < freed_slots(s, n).len() ==> 0 <= freed_slots(s, n)[k] < n && live(
                s,
                freed_slots(s, n)[k] as int,
            ) && !marked(s, freed_slots(s, n)[k] as int),
        forall|a: int, b: int| 0 <= a < b < freed_slots(s, n).len() ==> freed_slots(s, n)[a]
            < freed_slots(s, n)[b],
    decreases n,
{
    if n > 0 {
        lemma_freed_slots_props(s, n - 1);
        let rest = freed_slots(s, n - 1);
        let all = freed_slots(s, n);
        if marked(s, n - 1) || !live(s, n - 1) {
            assert(all == rest);
        } else {
            assert(all == rest.push((n - 1) as u32));
            assert forall|k: int| 0 <= k < all.len() implies 0 <= all[k] < n && live(s, all[k] as int) && !marked(s, all[k] as int) by {
                if k < rest.len() {
                    assert(all[k] == rest[k]);
                }
            }
            assert forall|a: int, b: int| 0 <= a < b < all.len() implies all[a] < all[b] by {
                assert(all[a] == rest[a]);
                if b < rest.len() {
                    assert(all[b] == rest[b]);
                }
            }
        }
    }
}

pub(crate) proof fn lemma_only_marks_added_trans(a: Seq<Option<Obj>>, b: Seq<Option<Obj>>, c: Seq<Option<Obj>>)
    requires
        only_marks_added(a, b),
        only_marks_added(b, c),
    ensures
        only_marks_added(a, c),
{
    assert forall|i: int| #![trigger a[i], c[i]] 0 <= i < a.len() implies (match a[i] {
        None => c[i] is None,
        Some(o) => c[i] matches Some(p) && p.kind == o.kind && (o.is_marked ==> p.is_marked),
    }) by {
        assert(0 <= i < b.len());
        let _ = b[i];
    }
}

/// Marking is complete: once the marks are closed under reference and every live root is
/// marked, every live object reachable from the roots is marked.
pub proof fn lemma_reachable_is_marked(s: Seq<Option<Obj>>, roots: Set<int>, n: nat, i: int)
    requires
        marks_closed(s),
        forall|r: int| #[trigger] roots.contains(r) && live(s, r) ==> marked(s, r),
        reachable_within(s, roots, n, i),
        live(s, i),
    ensures
        marked(s, i),
    decreases n,
{
    if n > 0 {
        let m = (n - 1) as nat;
        if reachable_within(s, roots, m, i) {
            lemma_reachable_is_marked(s, roots, m, i);
        } else {
            let j = choose|j: int| #[trigger] points_to(s, j, i) && reachable_within(s, roots, m, j);
            lemma_reachable_is_marked(s, roots, m, j);
            assert(children_marked(s, j));
            let c = GcRef(i as u32);
            assert(c.0 as int == i);
            assert(spec_refs(s[j]->0.kind).contains(c));
        }
    }
}

/// Sweeping keeps exactly the marked objects, unmarked and otherwise as they were, and frees
/// every other slot.
pub proof fn lemma_sweep_keeps_marked(s: Seq<Option<Obj>>, i: int)
    requires
        0 <= i < s.len(),
    ensures
        live(swept_slots(s), i) <==> marked(s, i),
        marked(s, i) ==> swept_slots(s)[i] == Some(Obj { is_marked: false, kind: s[i]->0.kind }),
        !marked(swept_slots(s), i),
{
}

/// A collection loses nothing reachable: after marking that closes the marks over every live
/// root, sweeping keeps every live object reachable from the roots.
pub proof fn lemma_collection_keeps_reachable(s: Seq<Option<Obj>>, roots: Set<int>, n: nat, i: int)
    requires
        marks_closed(s),
        forall|r: int| #[trigger] roots.contains(r) && live(s, r) ==> marked(s, r),
        reachable_within(s, roots, n, i),
        live(s, i),
    ensures
        live(swept_slots(s), i),
        swept_slots(s)[i]->0.kind == s[i]->0.kind,
{
    lemma_reachable_is_marked(s, roots, n, i);
    lemma_sweep_keeps_marked(s, i);
}

/// One step more: a live object reachable within `n` steps reaches its children within `n + 1`.
pub(crate) proof fn lemma_reachable_step(s: Seq<Option<Obj>>, roots: Set<int>, n: nat, j: int, i: int)
    requires
        reachable_within(s, roots, n, j),
        points_to(s, j, i),
    ensures
        reachable_within(s, roots, n + 1, i),
{
    let m: nat = n + 1;
    assert((m - 1) as nat == n);
}

/// Reachability depends only on which objects are live and what they refer to, not on marks.
pub proof fn lemma_reachable_ignores_marks(s: Seq<Option<Obj>>, t: Seq<Option<Obj>>, roots: Set<int>, n: nat, i: int)
    requires
        only_marks_added(s, t),
    ensures
        reachable_within(s, roots, n, i) == reachable_within(t, roots, n, i),
    decreases n,
{
    if n > 0 {
        let m = (n - 1) as nat;
        lemma_reachable_ignores_marks(s, t, roots, m, i);
        assert forall|j: int| points_to(s, j, i) <==> points_to(t, j, i) by {
            if 0 <= j < s.len() {
                let _ = s[j];
                let _ = t[j];
            }
        }
        if exists|j: int| #[trigger] points_to(s, j, i) && reachable_within(s, roots, m, j) {
            let j = choose|j: int| #[trigger] points_to(s, j, i) && reachable_within(s, roots, m, j);
            lemma_reachable_ignores_marks(s, t, roots, m, j);
            assert(points_to(t, j, i));
        }
        if exists|j: int| #[trigger] points_to(t, j, i) && reachable_within(t, roots, m, j) {
            let j = choose|j: int| #[trigger] points_to(t, j, i) && reachable_within(t, roots, m, j);
            lemma_reachable_ignores_marks(s, t, roots, m, j);
            assert(points_to(s, j, i));
        }
    }
}

/// More roots reach at least as much.
pub proof fn lemma_reachable_more_roots(s: Seq<Option<Obj>>, small: Set<int>, big: Set<int>, n: nat, i: int)
    requires
        small.subset_of(big),
        reachable_within(s, small, n, i),
    ensures
        reachable_within(s, big, n, i),
    decreases n,
{
    if n > 0 {
        let m = (n - 1) as nat;
        if reachable_within(s, small, m, i) {
            lemma_reachable_more_roots(s, small, big, m, i);
        } else {
            let j = choose|j: int| #[trigger] points_to(s, j, i) && reachable_within(s, small, m, j);
            lemma_reachable_more_roots(s, small, big, m, j);
        }
    }
}

/// Marking that extends the gray stack keeps it listing exactly marked objects and every
/// marked object.
pub proof fn lemma_gray_step(sa: Seq<Option<Obj>>, sb: Seq<Option<Obj>>, ga: Seq<u32>, gb: Seq<u32>)
    requires
        only_marks_added(sa, sb),
        gb.take(ga.len() as int) == ga,
        gb.len() >= ga.len(),
        forall|k: int| 0 <= k < ga.len() ==> marked(sa, ga[k] as int),
        forall|k: int| ga.len() <= k < gb.len() ==> marked(sb, gb[k] as int),
        forall|i: int| marked(sa, i) ==> ga.contains(i as u32),
        forall|i: int| marked(sb, i) && !marked(sa, i) ==> gb.contains(i as u32),
    ensures
        forall|k: int| 0 <= k < gb.len() ==> marked(sb, gb[k] as int),
        forall|i: int| marked(sb, i) ==> gb.contains(i as u32),
{
    assert forall|k: int| 0 <= k < gb.len() implies marked(sb, gb[k] as int) by {
        if k < ga.len() {
            assert(gb[k] == gb.take(ga.len() as int)[k]);
            let x = ga[k] as int;
            let _ = sa[x];
            let _ = sb[x];
        }
    }
    assert forall|i: int| marked(sb, i) implies gb.contains(i as u32) by {
        if marked(sa, i) {
            let w = choose|w: int| 0 <= w < ga.len() && ga[w] == i as u32;
            assert(gb[w] == gb.take(ga.len() as int)[w]);
        }
    }
}

/// Sweeping never adds to the count of allocated bytes.
pub proof fn lemma_bytes_after_sweep_le(s: Seq<Option<Obj>>, n: int, bytes: int)
    requires
        0 <= bytes,
    ensures
        0 <= bytes_after_sweep(s, n, bytes) <= bytes,
    decreases n,
{
    if n > 0 && n <= s.len() {
        lemma_bytes_after_sweep_le(s, n - 1, bytes);
    }
}

/// Only marks differ, so every object's size is the same.
pub proof fn lemma_sizes_fit_marks(s: Seq<Option<Obj>>, t: Seq<Option<Obj>>)
    requires
        only_marks_added(s, t),
        forall|i: int| live(s, i) ==> spec_size(s[i]->0) <= usize::MAX,
    ensures
        forall|i: int| live(t, i) ==> spec_size(t[i]->0) <= usize::MAX,
{
    assert forall|i: int| live(t, i) implies spec_size(t[i]->0) <= usize::MAX by {
        let _ = s[i];
        assert(live(s, i));
    }
}

} // verus!
