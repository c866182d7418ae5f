//! The slice-assignment store.
//!
//! A slice is a contiguous inclusive range of the shared hash space. The store
//! holds the slices this node currently owns, kept sorted by their start at
//! all times, and answers whether a hash key falls into an owned slice.
//! Assignment deltas from the partitioner are applied with [`AssignmentStore::apply`].

use vstd::prelude::*;

verus! {

/// A contiguous inclusive range `[start, end]` of the shared hash space.
#[derive(Clone, Copy, Debug, PartialEq, Eq, Hash, Structural)]
pub struct Slice {
    pub start: u64,
    pub end: u64,
}

/// A slice is well formed when its bounds are ordered.
pub open spec fn slice_wf(s: Slice) -> bool {
    s.start <= s.end
}

/// Key `k` lies inside slice `s` (inclusive bounds).
pub open spec fn in_slice(k: u64, s: Slice) -> bool {
    s.start <= k && k <= s.end
}

/// Two slices share no key.
pub open spec fn slices_disjoint(a: Slice, b: Slice) -> bool {
    a.end < b.start || b.end < a.start
}

/// Some slice of `ss` contains key `k`.
pub open spec fn covers(ss: Seq<Slice>, k: u64) -> bool {
    exists|i: int| 0 <= i < ss.len() && in_slice(k, #[trigger] ss[i])
}

/// The integrity errors that applying a delta can report.
#[derive(Clone, Copy, Debug, PartialEq, Eq, Structural)]
pub enum StoreError {
    /// A slice to unassign was not owned: the store and the partitioner have
    /// come out of sync. The entry is dropped, the rest of the delta holds.
    UnassignedNotOwned,
}

/// The set of slices this node currently owns.
pub struct AssignmentStore {
    slices: Vec<Slice>,
}

impl View for AssignmentStore {
    type V = Seq<Slice>;

    closed spec fn view(&self) -> Seq<Slice> {
        self.slices@
    }
}

impl AssignmentStore {
    /// The store invariant: every slice well formed, and the collection
    /// sorted by start with pairwise disjoint slices.
    pub open spec fn wf(self) -> bool {
        &&& forall|i: int| 0 <= i < self@.len() ==> slice_wf(#[trigger] self@[i])
        &&& forall|i: int, j: int|
            0 <= i < j < self@.len() ==> (#[trigger] self@[i]).end < (#[trigger] self@[j]).start
    }

    /// A store that owns nothing.
    pub fn new() -> (store: AssignmentStore)
        ensures
            store@ == Seq::<Slice>::empty(),
            store.wf(),
    {
        AssignmentStore { slices: Vec::new() }
    }

    /// The number of owned slices.
    pub fn len(&self) -> (n: usize)
        ensures
            n == self@.len(),
    {
        self.slices.len()
    }

    /// The owned slice at position `i` of the sorted collection.
    pub fn get(&self, i: usize) -> (s: Slice)
        requires
            i < self@.len(),
        ensures
            s == self@[i as int],
    {
        self.slices[i]
    }

    /// True iff key `key` lies within some owned slice.
    #[verifier::loop_isolation(false)]
    pub fn contains(&self, key: u64) -> (owned: bool)
        ensures
            owned == covers(self@, key),
    {
        let n = self.slices.len();
        let mut i: usize = 0;
        while i < n
            invariant
                i <= n,
                forall|j: int| 0 <= j < i ==> !in_slice(key, #[trigger] self@[j]),
            decreases n - i,
        {
            let s = self.slices[i];
            if s.start <= key && key <= s.end {
                assert(in_slice(key, self@[i as int]));
                return true;
            }
            i = i + 1;
        }
        false
    }

    /// Insert one slice, keeping the collection sorted by start.
    #[verifier::loop_isolation(false)]
    fn insert_slice(&mut self, s: Slice)
        requires
            old(self).wf(),
            slice_wf(s),
            forall|j: int|
                0 <= j < old(self)@.len() ==> slices_disjoint(s, #[trigger] old(self)@[j]),
        ensures
            final(self).wf(),
            final(self)@.len() == old(self)@.len() + 1,
            forall|x: Slice| final(self)@.contains(x) <==> (old(self)@.contains(x) || x == s),
    {
        let n = self.slices.len();
        let mut i: usize = 0;
        while i < n && self.slices[i].start < s.start
            invariant
                i <= n,
                forall|j: int| 0 <= j < i ==> (#[trigger] self@[j]).start < s.start,
            decreases n - i,
        {
            i = i + 1;
        }
        // Every earlier slice starts (and so, being disjoint, ends) before s;
        // every later slice starts after s ends.
        assert(forall|j: int| 0 <= j < i ==> (#[trigger] self@[j]).end < s.start);
        assert forall|j: int| i <= j < self@.len() implies s.end < (#[trigger] self@[j]).start by {
            if j > i {
                assert(self@[i as int].end < self@[j].start);
            }
            assert(slices_disjoint(s, self@[j]));
            assert(slice_wf(self@[j]));
        }
        let ghost pre = self@;
        self.slices.insert(i, s);
        assert forall|x: Slice| self@.contains(x) implies (pre.contains(x) || x == s) by {
            let k = choose|k: int| 0 <= k < self@.len() && self@[k] == x;
            if k < i {
                assert(pre[k] == x);
            } else if k > i {
                assert(pre[k - 1] == x);
            }
        }
        assert forall|x: Slice| (pre.contains(x) || x == s) implies self@.contains(x) by {
            if x == s {
                assert(self@[i as int] == x);
            } else {
                let k = choose|k: int| 0 <= k < pre.len() && pre[k] == x;
                if k < i {
                    assert(self@[k] == x);
                } else {
                    assert(self@[k + 1] == x);
                }
            }
        }
        assert(forall|x: Slice| self@.contains(x) <==> (old(self)@.contains(x) || x == s));
    }

    /// Remove the slice equal to `s`, if it is owned.
    #[verifier::loop_isolation(false)]
    fn remove_slice(&mut self, s: Slice) -> (found: bool)
        requires
            old(self).wf(),
        ensures
            final(self).wf(),
            found == old(self)@.contains(s),
            forall|x: Slice| final(self)@.contains(x) <==> (old(self)@.contains(x) && x != s),
            final(self)@.len() == old(self)@.len() - (if found { 1int } else { 0int }),
    {
        let n = self.slices.len();
        let mut i: usize = 0;
        while i < n
            invariant
                i <= n,
                self@ == old(self)@,
                forall|j: int| 0 <= j < i ==> self@[j] != s,
            decreases n - i,
        {
            if self.slices[i] == s {
                let ghost pre = self@;
                self.slices.remove(i);
                assert(pre[i as int] == s);
                // The slices are pairwise disjoint, so no other index holds a
                // slice equal to s.
                assert forall|j: int| 0 <= j < pre.len() && j != i implies pre[j] != s by {
                    if pre[j] == s {
                        assert(slice_wf(pre[i as int]));
                    }
                }
                assert forall|x: Slice| self@.contains(x) implies (pre.contains(x) && x != s) by {
                    let k = choose|k: int| 0 <= k < self@.len() && self@[k] == x;
                    if k < i {
                        assert(pre[k] == x);
                    } else {
                        assert(pre[k + 1] == x);
                    }
                }
                assert forall|x: Slice| (pre.contains(x) && x != s) implies self@.contains(x) by {
                    let k = choose|k: int| 0 <= k < pre.len() && pre[k] == x;
                    if k < i {
                        assert(self@[k] == x);
                    } else {
                        assert(self@[k - 1] == x);
                    }
                }
                assert(forall|x: Slice| self@.contains(x) <==> (old(self)@.contains(x) && x != s));
                return true;
            }
            i = i + 1;
        }
        assert(!old(self)@.contains(s)) by {
            if old(self)@.contains(s) {
                let k = choose|k: int| 0 <= k < old(self)@.len() && old(self)@[k] == s;
            }
        }
        false
    }

    /// Apply one assignment delta: every slice of `assigned` becomes owned,
    /// every slice of `unassigned` stops being owned.
    ///
    /// An entry of `unassigned` that is not owned is an integrity error: the
    /// entry is dropped, the rest of the delta is still applied, and the
    /// error is reported so the caller can alert.
    #[verifier::loop_isolation(false)]
    pub fn apply(&mut self, assigned: &Vec<Slice>, unassigned: &Vec<Slice>) -> (r: Result<
        (),
        StoreError,
    >)
        requires
            old(self).wf(),
            forall|i: int| 0 <= i < assigned@.len() ==> slice_wf(#[trigger] assigned@[i]),
            forall|i: int, j: int|
                0 <= i < j < assigned@.len() ==> slices_disjoint(
                    #[trigger] assigned@[i],
                    #[trigger] assigned@[j],
                ),
            forall|i: int, x: Slice|
                0 <= i < assigned@.len() && #[trigger] old(self)@.contains(x)
                    && !unassigned@.contains(x) ==> slices_disjoint(#[trigger] assigned@[i], x),
            forall|i: int, j: int|
                0 <= i < j < unassigned@.len() ==> unassigned@[i] != unassigned@[j],
        ensures
            final(self).wf(),
            forall|x: Slice|
                final(self)@.contains(x) <==> ((old(self)@.contains(x) && !unassigned@.contains(x))
                    || assigned@.contains(x)),
            r is Ok <==> (forall|j: int|
                0 <= j < unassigned@.len() ==> old(self)@.contains(#[trigger] unassigned@[j])),
    {
        let ghost pre = self@;
        let mut all_owned: bool = true;
        let mut j: usize = 0;
        while j < unassigned.len()
            invariant
                j <= unassigned@.len(),
                self.wf(),
                forall|x: Slice|
                    self@.contains(x) <==> (pre.contains(x) && !unassigned@.subrange(
                        0,
                        j as int,
                    ).contains(x)),
                all_owned <==> (forall|k: int|
                    0 <= k < j ==> pre.contains(#[trigger] unassigned@[k])),
            decreases unassigned@.len() - j,
        {
            let ghost mid = self@;
            let s = unassigned[j];
            let found = self.remove_slice(s);
            proof {
                // s differs from every earlier unassigned entry, so it was
                // still present in the store iff it was present at the start.
                assert forall|k: int| 0 <= k < j implies unassigned@[k] != s by {
                    assert(unassigned@[k] != unassigned@[j as int]);
                }
                if found {
                    assert(mid.contains(s));
                    assert(pre.contains(s));
                } else {
                    if pre.contains(s) {
                        assert(!unassigned@.subrange(0, j as int).contains(s)) by {
                            if unassigned@.subrange(0, j as int).contains(s) {
                                let k = choose|k: int|
                                    0 <= k < j && unassigned@.subrange(0, j as int)[k] == s;
                                assert(unassigned@[k] == s);
                            }
                        }
                        assert(mid.contains(s));
                    }
                }
                assert forall|x: Slice|
                    self@.contains(x) <==> (pre.contains(x) && !unassigned@.subrange(
                        0,
                        j as int + 1,
                    ).contains(x)) by {
                    let sub1 = unassigned@.subrange(0, j as int + 1);
                    let sub = unassigned@.subrange(0, j as int);
                    assert(sub1 =~= sub.push(s));
                    if sub1.contains(x) {
                        let k = choose|k: int| 0 <= k < sub1.len() && sub1[k] == x;
                        if k < j {
                            assert(sub[k] == x);
                        } else {
                            assert(x == s);
                        }
                    }
                    if sub.contains(x) {
                        let k = choose|k: int| 0 <= k < sub.len() && sub[k] == x;
                        assert(sub1[k] == x);
                    }
                    if x == s {
                        assert(sub1[j as int] == x);
                    }
                }
            }
            if !found {
                all_owned = false;
            }
            j = j + 1;
        }
        let ghost removed = self@;
        proof {
            assert(unassigned@.subrange(0, unassigned@.len() as int) =~= unassigned@);
            assert(forall|x: Slice|
                removed.contains(x) <==> (pre.contains(x) && !unassigned@.contains(x)));
        }
        let mut i: usize = 0;
        while i < assigned.len()
            invariant
                i <= assigned@.len(),
                self.wf(),
                forall|x: Slice|
                    self@.contains(x) <==> (removed.contains(x) || assigned@.subrange(
                        0,
                        i as int,
                    ).contains(x)),
            decreases assigned@.len() - i,
        {
            let ghost mid = self@;
            proof {
                // Pin the loop-head contents under the name `mid`, so the
                // step after the insertion can chain through it.
                assert(forall|x: Slice|
                    mid.contains(x) <==> (removed.contains(x) || assigned@.subrange(
                        0,
                        i as int,
                    ).contains(x)));
            }
            let s = assigned[i];
            proof {
                assert forall|x: Slice| self@.contains(x) implies slices_disjoint(s, x) by {
                    if removed.contains(x) {
                        assert(pre.contains(x) && !unassigned@.contains(x));
                        assert(slices_disjoint(assigned@[i as int], x));
                    } else {
                        let sub = assigned@.subrange(0, i as int);
                        let k = choose|k: int| 0 <= k < sub.len() && sub[k] == x;
                        assert(assigned@[k] == x);
                        assert(slices_disjoint(assigned@[k], assigned@[i as int]));
                    }
                }
                assert forall|k: int| 0 <= k < self@.len() implies slices_disjoint(
                    s,
                    #[trigger] self@[k],
                ) by {
                    assert(self@.contains(self@[k]));
                }
            }
            self.insert_slice(s);
            proof {
                assert forall|x: Slice|
                    self@.contains(x) <==> (removed.contains(x) || assigned@.subrange(
                        0,
                        i as int + 1,
                    ).contains(x)) by {
                    let sub1 = assigned@.subrange(0, i as int + 1);
                    let sub = assigned@.subrange(0, i as int);
                    assert(sub1 =~= sub.push(s));
                    assert(self@.contains(x) <==> (mid.contains(x) || x == s));
                    assert(mid.contains(x) <==> (removed.contains(x) || sub.contains(x)));
                    if sub1.contains(x) {
                        let k = choose|k: int| 0 <= k < sub1.len() && sub1[k] == x;
                        if k < i {
                            assert(sub[k] == x);
                        } else {
                            assert(x == s);
                        }
                    }
                    if sub.contains(x) {
                        let k = choose|k: int| 0 <= k < sub.len() && sub[k] == x;
                        assert(sub1[k] == x);
                    }
                    if x == s {
                        assert(sub1[i as int] == x);
                    }
                }
            }
            i = i + 1;
        }
        let ghost fin = self@;
        proof {
            assert(assigned@.subrange(0, assigned@.len() as int) =~= assigned@);
            assert(forall|x: Slice|
                fin.contains(x) <==> (removed.contains(x) || assigned@.contains(x)));
            assert(forall|x: Slice|
                fin.contains(x) <==> ((pre.contains(x) && !unassigned@.contains(x))
                    || assigned@.contains(x)));
        }
        if all_owned {
            Ok(())
        } else {
            Err(StoreError::UnassignedNotOwned)
        }
    }
}

/// Membership alone decides coverage: stores with the same slices cover the
/// same keys.
pub proof fn lemma_covers_members(a: Seq<Slice>, b: Seq<Slice>, k: u64)
    requires
        forall|x: Slice| a.contains(x) <==> b.contains(x),
    ensures
        covers(a, k) == covers(b, k),
{
    if covers(a, k) {
        let i = choose|i: int| 0 <= i < a.len() && in_slice(k, a[i]);
        assert(a.contains(a[i]));
        let j = choose|j: int| 0 <= j < b.len() && b[j] == a[i];
        assert(in_slice(k, b[j]));
    }
    if covers(b, k) {
        let i = choose|i: int| 0 <= i < b.len() && in_slice(k, b[i]);
        assert(b.contains(b[i]));
        let j = choose|j: int| 0 <= j < a.len() && a[j] == b[i];
        assert(in_slice(k, a[j]));
    }
}

/// After applying a delta that only assigns `assigned` to an empty store, a
/// key is covered iff it lies within some slice of `assigned` — for every key
/// and every slice set.
///
/// `post` is any store contents that `apply` can leave behind, characterised
/// by its postcondition on membership.
pub proof fn lemma_assign_covers_exactly(
    pre: Seq<Slice>,
    post: Seq<Slice>,
    assigned: Seq<Slice>,
    k: u64,
)
    requires
        pre.len() == 0,
        forall|x: Slice| post.contains(x) <==> (pre.contains(x) || assigned.contains(x)),
    ensures
        covers(post, k) <==> (exists|i: int|
            0 <= i < assigned.len() && in_slice(k, #[trigger] assigned[i])),
{
    assert forall|x: Slice| post.contains(x) <==> assigned.contains(x) by {
        if pre.contains(x) {
            let i = choose|i: int| 0 <= i < pre.len() && pre[i] == x;
        }
    }
    lemma_covers_members(post, assigned, k);
}

/// Round trip: assigning a delta and then unassigning the same delta restores
/// an empty store to empty.
///
/// `mid` is the contents after the assigning step, `post` after the
/// unassigning step, each characterised by `apply`'s postcondition.
pub proof fn lemma_apply_round_trip(mid: Seq<Slice>, post: Seq<Slice>, delta: Seq<Slice>)
    requires
        forall|x: Slice| mid.contains(x) <==> delta.contains(x),
        forall|x: Slice| post.contains(x) <==> (mid.contains(x) && !delta.contains(x)),
    ensures
        post =~= Seq::<Slice>::empty(),
{
    if post.len() > 0 {
        assert(post.contains(post[0]));
    }
}

} // verus!
