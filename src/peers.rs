use vstd::prelude::*;
use crate::member::{ids_of, lists_id, Member};

verus! {

/// The identities of the snapshot members at positions `picks`.
pub open spec fn ids_at(snapshot: Seq<Member>, picks: Seq<usize>) -> Set<i64> {
    Set::new(|id: i64| exists|j: int| 0 <= j < picks.len() && snapshot[#[trigger] picks[j] as int].id == id)
}

/// The identities that registry entries are keyed by.
pub open spec fn ids_in<C>(s: Seq<(i64, C)>) -> Set<i64>
    decreases s.len(),
{
    if s.len() == 0 {
        Set::empty()
    } else {
        ids_in(s.drop_last()).insert(s.last().0)
    }
}

/// No identity keys two entries.
pub open spec fn unique_ids<C>(s: Seq<(i64, C)>) -> bool
    decreases s.len(),
{
    s.len() == 0 || (unique_ids(s.drop_last()) && !ids_in(s.drop_last()).contains(s.last().0))
}

/// The entries whose identity is in `keep`, in their order.
pub open spec fn kept<C>(s: Seq<(i64, C)>, keep: Set<i64>) -> Seq<(i64, C)>
    decreases s.len(),
{
    if s.len() == 0 {
        Seq::empty()
    } else if keep.contains(s.last().0) {
        kept(s.drop_last(), keep).push(s.last())
    } else {
        kept(s.drop_last(), keep)
    }
}

/// The identities of `s` other than `id`.
pub open spec fn ids_except<C>(s: Seq<(i64, C)>, id: i64) -> Set<i64> {
    ids_in(s).remove(id)
}

proof fn lemma_push_entry<C>(s: Seq<(i64, C)>, e: (i64, C))
    ensures
        s.push(e).drop_last() == s,
        s.push(e).last() == e,
{
    assert(s.push(e).drop_last() =~= s);
}

proof fn lemma_kept_step<C>(s: Seq<(i64, C)>, keep: Set<i64>)
    requires
        s.len() > 0,
    ensures
        kept(s, keep) == if keep.contains(s.last().0) {
            kept(s.drop_last(), keep).push(s.last())
        } else {
            kept(s.drop_last(), keep)
        },
{
}

proof fn lemma_kept<C>(s: Seq<(i64, C)>, keep: Set<i64>)
    ensures
        ids_in(kept(s, keep)) == ids_in(s).intersect(keep),
        unique_ids(s) ==> unique_ids(kept(s, keep)),
        ids_in(s).subset_of(keep) ==> kept(s, keep) == s,
    decreases s.len(),
{
    if s.len() > 0 {
        let f = s.drop_last();
        lemma_kept(f, keep);
        if keep.contains(s.last().0) {
            lemma_push_entry(kept(f, keep), s.last());
        }
        assert(ids_in(kept(s, keep)) =~= ids_in(s).intersect(keep));
        if ids_in(s).subset_of(keep) {
            assert(ids_in(f).subset_of(keep));
            assert(f.push(s.last()) =~= s);
        }
    }
}

proof fn lemma_ids_in_index<C>(s: Seq<(i64, C)>, id: i64)
    ensures
        ids_in(s).contains(id) <==> exists|i: int| 0 <= i < s.len() && #[trigger] s[i].0 == id,
    decreases s.len(),
{
    if s.len() > 0 {
        let f = s.drop_last();
        lemma_ids_in_index(f, id);
        if exists|i: int| 0 <= i < f.len() && #[trigger] f[i].0 == id {
            let i = choose|i: int| 0 <= i < f.len() && #[trigger] f[i].0 == id;
            assert(s[i].0 == id);
        }
        if exists|i: int| 0 <= i < s.len() && #[trigger] s[i].0 == id {
            let i = choose|i: int| 0 <= i < s.len() && #[trigger] s[i].0 == id;
            if i < f.len() {
                assert(f[i].0 == id);
            }
        }
    }
}

/// The open tunnels of a client, one per remote player, keyed by identity.
pub struct PeerRegistry<C> {
    entries: Vec<(i64, C)>,
}

impl<C> PeerRegistry<C> {
    pub closed spec fn view(&self) -> Seq<(i64, C)> {
        self.entries@
    }

    /// The players the registry holds a tunnel to.
    pub open spec fn ids(&self) -> Set<i64> {
        ids_in(self@)
    }

    pub open spec fn wf(&self) -> bool {
        unique_ids(self@)
    }

    /// An empty registry.
    pub fn new() -> (r: PeerRegistry<C>)
        ensures
            r@ == Seq::<(i64, C)>::empty(),
            r.ids() == Set::<i64>::empty(),
            r.wf(),
    {
        PeerRegistry { entries: Vec::new() }
    }

    /// How many tunnels are open.
    pub fn len(&self) -> (r: usize)
        ensures
            r == self@.len(),
    {
        self.entries.len()
    }

    /// The identity of the `i`-th tunnel.
    pub fn id_at(&self, i: usize) -> (r: i64)
        requires
            i < self@.len(),
        ensures
            r == self@[i as int].0,
    {
        self.entries[i].0
    }

    /// Whether a tunnel to player `id` is open.
    pub fn contains(&self, id: i64) -> (r: bool)
        ensures
            r == self.ids().contains(id),
    {
        let mut i: usize = 0;
        while i < self.entries.len()
            invariant
                i <= self.entries.len(),
                forall|k: int| 0 <= k < i ==> #[trigger] self@[k].0 != id,
            decreases self.entries.len() - i,
        {
            if self.entries[i].0 == id {
                proof {
                    lemma_ids_in_index(self@, id);
                }
                return true;
            }
            i = i + 1;
        }
        proof {
            lemma_ids_in_index(self@, id);
        }
        false
    }

    /// The `i`-th tunnel, to send on; its identity stays.
    pub fn connection_mut(&mut self, i: usize) -> (r: &mut C)
        requires
            i < old(self)@.len(),
        ensures
            *r == old(self)@[i as int].1,
            final(self)@ == old(self)@.update(i as int, (old(self)@[i as int].0, *final(r))),
    {
        &mut self.entries[i].1
    }

    /// Adds the tunnel `conn` to player `id`. When one is open already the
    /// registry is left as it was and `conn` is handed back.
    pub fn add(&mut self, id: i64, conn: C) -> (r: Option<C>)
        ensures
            old(self).ids().contains(id) ==> final(self)@ == old(self)@ && r == Some(conn),
            !old(self).ids().contains(id) ==> final(self)@ == old(self)@.push((id, conn)) && r is None,
            final(self).ids() == old(self).ids().insert(id),
            old(self).wf() ==> final(self).wf(),
    {
        if self.contains(id) {
            proof {
                assert(self.ids().insert(id) =~= self.ids());
            }
            Some(conn)
        } else {
            let ghost s = self@;
            self.entries.push((id, conn));
            proof {
                lemma_push_entry(s, (id, conn));
            }
            None
        }
    }

    /// Closes the tunnels to every player that `snapshot` does not list and
    /// hands them back; the others stay open, untouched.
    pub fn retain_members(&mut self, snapshot: &Vec<Member>) -> (r: Vec<C>)
        ensures
            final(self)@ == kept(old(self)@, ids_of(snapshot@)),
            final(self).ids() == old(self).ids().intersect(ids_of(snapshot@)),
            old(self).wf() ==> final(self).wf(),
            r@.len() == old(self)@.len() - final(self)@.len(),
            old(self).ids().subset_of(ids_of(snapshot@)) ==> final(self)@ == old(self)@ && r@.len() == 0,
    {
        let ghost orig = self@;
        let ghost keep = ids_of(snapshot@);
        let mut rest: Vec<(i64, C)> = Vec::new();
        std::mem::swap(&mut rest, &mut self.entries);
        let mut closed: Vec<C> = Vec::new();
        let ghost mut i: int = 0;
        while rest.len() > 0
            invariant
                0 <= i <= orig.len(),
                keep == ids_of(snapshot@),
                rest@ == orig.subrange(i, orig.len() as int),
                self@ == kept(orig.subrange(0, i), keep),
                closed@.len() == i - self@.len(),
            decreases rest.len(),
        {
            let e = rest.remove(0);
            proof {
                assert(e == orig[i]);
                assert(orig.subrange(0, i + 1).last() == orig[i]);
                assert(rest@ =~= orig.subrange(i + 1, orig.len() as int));
                assert(orig.subrange(0, i + 1).drop_last() =~= orig.subrange(0, i));
                lemma_kept_step(orig.subrange(0, i + 1), keep);
            }
            let listed = lists_id(snapshot, e.0);
            if listed {
                let ghost s = self@;

                self.entries.push(e);
                proof {
                    lemma_push_entry(s, e);
                    assert(kept(orig.subrange(0, i + 1), keep) == s.push(e));
                }
            } else {
                closed.push(e.1);
                assert(kept(orig.subrange(0, i + 1), keep) == self@);
            }
            proof {
                i = i + 1;
            }
        }
        proof {
            assert(orig.subrange(0, orig.len() as int) =~= orig);
            lemma_kept(orig, keep);
        }
        closed
    }

    /// Closes the tunnel to player `id`, if one is open, and hands it back.
    pub fn remove(&mut self, id: i64) -> (r: Option<C>)
        ensures
            final(self)@ == kept(old(self)@, old(self).ids().remove(id)),
            final(self).ids() == old(self).ids().remove(id),
            old(self).wf() ==> final(self).wf(),
            r is Some <==> old(self).ids().contains(id),
    {
        let ghost orig = self@;
        let ghost keep = ids_except(orig, id);
        let mut rest: Vec<(i64, C)> = Vec::new();
        std::mem::swap(&mut rest, &mut self.entries);
        let mut found: Option<C> = None;
        let ghost mut i: int = 0;
        while rest.len() > 0
            invariant
                0 <= i <= orig.len(),
                keep == ids_except(orig, id),
                rest@ == orig.subrange(i, orig.len() as int),
                self@ == kept(orig.subrange(0, i), keep),
                found is Some <==> ids_in(orig.subrange(0, i)).contains(id),
            decreases rest.len(),
        {
            let e = rest.remove(0);
            proof {
                assert(e == orig[i]);
                assert(orig.subrange(0, i + 1).last() == orig[i]);
                assert(rest@ =~= orig.subrange(i + 1, orig.len() as int));
                assert(orig.subrange(0, i + 1).drop_last() =~= orig.subrange(0, i));
                lemma_kept_step(orig.subrange(0, i + 1), keep);
                lemma_ids_in_index(orig, e.0);
            }
            if e.0 != id {
                let ghost s = self@;
                self.entries.push(e);
                proof {
                    lemma_push_entry(s, e);
                    assert(kept(orig.subrange(0, i + 1), keep) == s.push(e));
                }
            } else {
                found = Some(e.1);
                assert(kept(orig.subrange(0, i + 1), keep) == self@);
            }
            proof {
                i = i + 1;
            }
        }
        proof {
            assert(orig.subrange(0, orig.len() as int) =~= orig);
            lemma_kept(orig, keep);
            assert(ids_in(orig).intersect(keep) =~= ids_in(orig).remove(id));
        }
        found
    }

    /// The positions in `snapshot` of the players to open a tunnel to: each
    /// listed player that has none yet, once.
    pub fn to_open(&self, snapshot: &Vec<Member>) -> (r: Vec<usize>)
        ensures
            forall|j: int| 0 <= j < r@.len() ==> #[trigger] r@[j] < snapshot@.len()
                && !self.ids().contains(snapshot@[r@[j] as int].id),
            forall|a: int, b: int| 0 <= a < b < r@.len()
                ==> snapshot@[#[trigger] r@[a] as int].id != snapshot@[#[trigger] r@[b] as int].id,
            forall|id: i64| #[trigger] ids_of(snapshot@).contains(id) && !self.ids().contains(id)
                ==> exists|j: int| 0 <= j < r@.len() && snapshot@[#[trigger] r@[j] as int].id == id,
            ids_at(snapshot@, r@) == ids_of(snapshot@).difference(self.ids()),
            ids_of(snapshot@).subset_of(self.ids()) ==> r@.len() == 0,
    {
        let mut out: Vec<usize> = Vec::new();
        let mut i: usize = 0;
        while i < snapshot.len()
            invariant
                i <= snapshot.len(),
                forall|j: int| 0 <= j < out@.len() ==> #[trigger] out@[j] < i
                    && !self.ids().contains(snapshot@[out@[j] as int].id),
                forall|a: int, b: int| 0 <= a < b < out@.len()
                    ==> snapshot@[#[trigger] out@[a] as int].id != snapshot@[#[trigger] out@[b] as int].id,
                forall|k: int| 0 <= k < i && !self.ids().contains(#[trigger] snapshot@[k].id)
                    ==> exists|j: int| 0 <= j < out@.len() && snapshot@[#[trigger] out@[j] as int].id == snapshot@[k].id,
            decreases snapshot.len() - i,
        {
            let id = snapshot[i].id;
            let ghost before = out@;
            if !self.contains(id) {
                let mut seen = false;
                let mut j: usize = 0;
                while j < out.len()
                    invariant
                        i < snapshot.len(),
                        j <= out.len(),
                        forall|j2: int| 0 <= j2 < out@.len() ==> #[trigger] out@[j2] < i,
                        seen <==> exists|j2: int| 0 <= j2 < j && snapshot@[#[trigger] out@[j2] as int].id == id,
                    decreases out.len() - j,
                {
                    if snapshot[out[j]].id == id {
                        seen = true;
                    }
                    j = j + 1;
                }
                if !seen {
                    out.push(i);
                    proof {
                        assert(out@[out@.len() - 1] == i);
                    }
                }
            }
            proof {
                assert forall|k: int| 0 <= k < i + 1 && !self.ids().contains(#[trigger] snapshot@[k].id)
                    implies exists|j: int| 0 <= j < out@.len() && snapshot@[#[trigger] out@[j] as int].id == snapshot@[k].id by {
                    if k < i {
                        let j = choose|j: int| 0 <= j < before.len() && snapshot@[#[trigger] before[j] as int].id == snapshot@[k].id;
                        assert(out@[j] == before[j]);
                    }
                }
            }
            i = i + 1;
        }
        proof {
            assert forall|id: i64| #[trigger] ids_of(snapshot@).contains(id) && !self.ids().contains(id)
                implies exists|j: int| 0 <= j < out@.len() && snapshot@[#[trigger] out@[j] as int].id == id by {
                let k = choose|k: int| 0 <= k < snapshot@.len() && #[trigger] snapshot@[k].id == id;
                assert(!self.ids().contains(snapshot@[k].id));
            }
            assert forall|id: i64| ids_at(snapshot@, out@).contains(id)
                implies ids_of(snapshot@).difference(self.ids()).contains(id) by {
                let j = choose|j: int| 0 <= j < out@.len() && snapshot@[#[trigger] out@[j] as int].id == id;
                assert(snapshot@[out@[j] as int].id == id);
            }
            assert(ids_at(snapshot@, out@) =~= ids_of(snapshot@).difference(self.ids()));
            if ids_of(snapshot@).subset_of(self.ids()) && out@.len() > 0 {
                let k = out@[0] as int;
                assert(ids_of(snapshot@).contains(snapshot@[k].id));
            }
        }
        out
    }
}

/// Reconciling against a snapshot converges: take the players that
/// `to_open` picks, add a tunnel to each of them, then `retain_members`; the
/// registry ends up keyed by exactly the players the snapshot lists,
/// whatever it held before.
pub proof fn lemma_reconcile_converges<C>(
    before: PeerRegistry<C>,
    opened: PeerRegistry<C>,
    after: PeerRegistry<C>,
    snapshot: Seq<Member>,
    picks: Seq<usize>,
)
    requires
        ids_at(snapshot, picks) == ids_of(snapshot).difference(before.ids()),
        opened.ids() == before.ids().union(ids_at(snapshot, picks)),
        after.ids() == opened.ids().intersect(ids_of(snapshot)),
    ensures
        after.ids() == ids_of(snapshot),
{
    assert(after.ids() =~= ids_of(snapshot));
}

/// Delivering again the snapshot that a registry already matches churns no
/// connection: `to_open` has no one to pick, and `retain_members` keeps every
/// entry as it is.
pub proof fn lemma_repeat_snapshot_is_quiet<C>(reg: PeerRegistry<C>, snapshot: Seq<Member>)
    requires
        reg.ids() == ids_of(snapshot),
    ensures
        ids_of(snapshot).difference(reg.ids()) == Set::<i64>::empty(),
        kept(reg@, ids_of(snapshot)) == reg@,
{
    assert(ids_of(snapshot).difference(reg.ids()) =~= Set::<i64>::empty());
    lemma_kept(reg@, ids_of(snapshot));
}

} // verus!
