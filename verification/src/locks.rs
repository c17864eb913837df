//! The per-key lock registry model: every (localization id, install root)
//! pair gets one slot, created lazily on first sight and never removed for
//! the process's lifetime. The same key always maps to the same slot and
//! distinct keys map to distinct slots, so a mutual-exclusion primitive held
//! per slot serializes operations on the same target while leaving different
//! targets independent.

use vstd::prelude::*;

verus! {

/// A lock key: the localization id and the install-root path it targets.
/// Locks are scoped per target, not globally, so operations against
/// different install roots never contend.
pub struct LockKey {
    pub id: String,
    pub root: String,
}

impl View for LockKey {
    type V = (Seq<char>, Seq<char>);

    open spec fn view(&self) -> (Seq<char>, Seq<char>) {
        (self.id@, self.root@)
    }
}

/// The registry: an append-only list of distinct keys; the index of a key
/// is its lock slot.
pub struct LockRegistry {
    keys: Vec<LockKey>,
}

impl LockRegistry {
    /// The registered keys, in slot order.
    pub closed spec fn keys_view(self) -> Seq<(Seq<char>, Seq<char>)> {
        self.keys@.map(|i: int, k: LockKey| k@)
    }

    /// No key occupies two slots.
    pub open spec fn wf(self) -> bool {
        forall|i: int, j: int|
            0 <= i < j < self.keys_view().len() ==> self.keys_view()[i] != self.keys_view()[j]
    }

    /// An empty registry.
    pub fn new() -> (r: Self)
        ensures
            r.wf(),
            r.keys_view() == Seq::<(Seq<char>, Seq<char>)>::empty(),
    {
        let r = Self { keys: Vec::new() };
        proof {
            assert(r.keys_view() =~= Seq::<(Seq<char>, Seq<char>)>::empty());
        }
        r
    }

    /// How many slots exist.
    pub fn len(&self) -> (n: usize)
        ensures
            n == self.keys_view().len(),
    {
        let n = self.keys.len();
        proof {
            assert(self.keys_view().len() == self.keys@.len());
        }
        n
    }

    /// The slot for a key: its existing slot when the key was seen before
    /// (the registry is unchanged), and a freshly appended slot otherwise.
    /// Existing keys never move, so a key's slot is stable for the
    /// process's lifetime.
    pub fn slot_for(&mut self, id: &String, root: &String) -> (slot: usize)
        requires
            old(self).wf(),
        ensures
            final(self).wf(),
            slot < final(self).keys_view().len(),
            final(self).keys_view()[slot as int] == (id@, root@),
            forall|t: int|
                0 <= t < old(self).keys_view().len() ==> final(self).keys_view()[t] == old(
                    self,
                ).keys_view()[t],
            old(self).keys_view().contains((id@, root@)) ==> final(self).keys_view() == old(
                self,
            ).keys_view(),
            !old(self).keys_view().contains((id@, root@)) ==> final(self).keys_view() == old(
                self,
            ).keys_view().push((id@, root@)) && slot == old(self).keys_view().len(),
    {
        let n = self.keys.len();
        let mut k: usize = 0;
        while k < n
            invariant
                0 <= k <= n,
                n == self.keys@.len(),
                *self == *old(self),
                old(self).wf(),
                forall|t: int| 0 <= t < k ==> old(self).keys_view()[t] != (id@, root@),
            decreases n - k,
        {
            if self.keys[k].id.eq(id) && self.keys[k].root.eq(root) {
                proof {
                    assert(self.keys_view()[k as int] == (id@, root@));
                }
                return k;
            }
            proof {
                assert(self.keys_view()[k as int] == (self.keys@[k as int].id@, self.keys@[
                    k as int].root@));
            }
            k += 1;
        }
        proof {
            assert forall|t: int|
                0 <= t < old(self).keys_view().len() implies old(self).keys_view()[t] != (
            (id@, root@)) by {
                assert(old(self).keys_view()[t] != (id@, root@));
            }
            assert(!old(self).keys_view().contains((id@, root@)));
        }
        let entry = LockKey { id: id.clone(), root: root.clone() };
        let ghost prev = self.keys@;
        self.keys.push(entry);
        proof {
            assert(prev.map(|i: int, q: LockKey| q@).len() == prev.len());
            assert forall|t: int| 0 <= t < self.keys@.len() implies (#[trigger] self.keys_view()[t])
                == old(self).keys_view().push((id@, root@))[t] by {
                assert(self.keys_view()[t] == self.keys@[t]@);
                if t < self.keys@.len() - 1 {
                    assert(self.keys@[t] == prev[t]);
                    assert(old(self).keys_view()[t] == prev[t]@);
                }
            }
            assert(self.keys_view() =~= old(self).keys_view().push((id@, root@)));
        }
        n
    }
}

/// The exclusivity law of the registry: in a well-formed registry no two
/// slots carry the same key, so two acquisitions of the same key always
/// reach the same slot's lock (and are serialized by it), while different
/// keys reach different slots and never block each other.
pub proof fn lemma_distinct_slots(r: LockRegistry, i: int, j: int)
    requires
        r.wf(),
        0 <= i < r.keys_view().len(),
        0 <= j < r.keys_view().len(),
        i != j,
    ensures
        r.keys_view()[i] != r.keys_view()[j],
{
}

} // verus!
