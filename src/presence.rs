use vstd::prelude::*;
use crate::member::{Endpoint, Member};

verus! {

/// The address of player `id` in a presence list, if it is online.
pub open spec fn address_in(s: Seq<Member>, id: i64) -> Option<Endpoint>
    decreases s.len(),
{
    if s.len() == 0 {
        None
    } else if s.last().id == id {
        Some(s.last().addr)
    } else {
        address_in(s.drop_last(), id)
    }
}

/// A presence list with player `id` taken out.
pub open spec fn without_id(s: Seq<Member>, id: i64) -> Seq<Member>
    decreases s.len(),
{
    if s.len() == 0 {
        Seq::empty()
    } else if s.last().id == id {
        without_id(s.drop_last(), id)
    } else {
        without_id(s.drop_last(), id).push(s.last())
    }
}

proof fn lemma_without_id(s: Seq<Member>, id: i64, q: i64)
    ensures
        address_in(without_id(s, id), q) == if q == id {
            None
        } else {
            address_in(s, q)
        },
    decreases s.len(),
{
    if s.len() > 0 {
        lemma_without_id(s.drop_last(), id, q);
        if s.last().id != id {
            assert(without_id(s.drop_last(), id).push(s.last()).drop_last() =~= without_id(s.drop_last(), id));
        }
    }
}

/// The players that are online, each with the address it announced; one
/// entry per player.
pub struct Presence {
    online: Vec<Member>,
}

impl Presence {
    pub closed spec fn view(&self) -> Seq<Member> {
        self.online@
    }

    /// The address of player `id`, if it is online.
    pub open spec fn address_spec(&self, id: i64) -> Option<Endpoint> {
        address_in(self@, id)
    }

    /// Nobody online.
    pub fn new() -> (r: Presence)
        ensures
            forall|id: i64| #[trigger] r.address_spec(id) is None,
    {
        Presence { online: Vec::new() }
    }

    fn take_out(&mut self, id: i64)
        ensures
            final(self)@ == without_id(old(self)@, id),
    {
        let ghost s = self@;
        let mut out: Vec<Member> = Vec::new();
        let mut i: usize = 0;
        while i < self.online.len()
            invariant
                self@ == s,
                i <= self.online.len(),
                out@ == without_id(s.subrange(0, i as int), id),
            decreases self.online.len() - i,
        {
            assert(s.subrange(0, i + 1).drop_last() =~= s.subrange(0, i as int));
            if self.online[i].id != id {
                out.push(self.online[i]);
            }
            i = i + 1;
        }
        assert(s.subrange(0, s.len() as int) =~= s);
        self.online = out;
    }

    /// Player `m` comes online at its address; an earlier entry for the same
    /// player is replaced.
    pub fn connect(&mut self, m: Member)
        ensures
            forall|q: i64| #[trigger] final(self).address_spec(q) == if q == m.id {
                Some(m.addr)
            } else {
                old(self).address_spec(q)
            },
    {
        let ghost s = self@;
        self.take_out(m.id);
        let ghost t = self@;
        self.online.push(m);
        proof {
            assert(self@.drop_last() =~= t);
            assert forall|q: i64| #[trigger] self.address_spec(q) == if q == m.id {
                Some(m.addr)
            } else {
                address_in(s, q)
            } by {
                lemma_without_id(s, m.id, q);
            }
        }
    }

    /// Player `id` goes offline.
    pub fn disconnect(&mut self, id: i64)
        ensures
            forall|q: i64| #[trigger] final(self).address_spec(q) == if q == id {
                None
            } else {
                old(self).address_spec(q)
            },
    {
        let ghost s = self@;
        self.take_out(id);
        proof {
            assert forall|q: i64| #[trigger] self.address_spec(q) == if q == id {
                None
            } else {
                address_in(s, q)
            } by {
                lemma_without_id(s, id, q);
            }
        }
    }

    /// The address of player `id`, if it is online.
    pub fn address_of(&self, id: i64) -> (r: Option<Endpoint>)
        ensures
            r == self.address_spec(id),
    {
        let mut i: usize = self.online.len();
        assert(self@.subrange(0, self@.len() as int) =~= self@);
        while i > 0
            invariant
                i <= self.online.len(),
                address_in(self@, id) == address_in(self@.subrange(0, i as int), id),
            decreases i,
        {
            assert(self@.subrange(0, i as int).drop_last() =~= self@.subrange(0, i - 1));
            if self.online[i - 1].id == id {
                return Some(self.online[i - 1].addr);
            }
            i = i - 1;
        }
        None
    }
}

} // verus!
