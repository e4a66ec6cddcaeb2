use vstd::prelude::*;
use crate::member::{ids_of, lists_id, Member};

verus! {

/// The most members a group holds.
pub const GROUP_CAPACITY: usize = 4;

/// One player's seat: the group it is in, and the player.
#[derive(Clone, Copy, Debug, PartialEq, Eq)]
pub struct Seat {
    pub group: i64,
    pub member: Member,
}

/// The members of group `g`, in the order they joined.
pub open spec fn members_of(s: Seq<Seat>, g: i64) -> Seq<Member>
    decreases s.len(),
{
    if s.len() == 0 {
        Seq::empty()
    } else if s.last().group == g {
        members_of(s.drop_last(), g).push(s.last().member)
    } else {
        members_of(s.drop_last(), g)
    }
}

/// The members of group `g` other than player `p`, in the order they joined.
pub open spec fn peers_of(s: Seq<Seat>, g: i64, p: i64) -> Seq<Member>
    decreases s.len(),
{
    if s.len() == 0 {
        Seq::empty()
    } else if s.last().group == g && s.last().member.id != p {
        peers_of(s.drop_last(), g, p).push(s.last().member)
    } else {
        peers_of(s.drop_last(), g, p)
    }
}

/// How many seats player `p` holds.
pub open spec fn seats_of(s: Seq<Seat>, p: i64) -> nat
    decreases s.len(),
{
    if s.len() == 0 {
        0
    } else {
        seats_of(s.drop_last(), p) + if s.last().member.id == p {
            1nat
        } else {
            0nat
        }
    }
}

/// The group that player `p` is in, if any.
pub open spec fn group_of(s: Seq<Seat>, p: i64) -> Option<i64>
    decreases s.len(),
{
    if s.len() == 0 {
        None
    } else if s.last().member.id == p {
        Some(s.last().group)
    } else {
        group_of(s.drop_last(), p)
    }
}

/// The seats with player `p` taken out.
pub open spec fn without_player(s: Seq<Seat>, p: i64) -> Seq<Seat>
    decreases s.len(),
{
    if s.len() == 0 {
        Seq::empty()
    } else if s.last().member.id == p {
        without_player(s.drop_last(), p)
    } else {
        without_player(s.drop_last(), p).push(s.last())
    }
}

/// The seats with group `g` dissolved.
pub open spec fn without_group(s: Seq<Seat>, g: i64) -> Seq<Seat>
    decreases s.len(),
{
    if s.len() == 0 {
        Seq::empty()
    } else if s.last().group == g {
        without_group(s.drop_last(), g)
    } else {
        without_group(s.drop_last(), g).push(s.last())
    }
}

/// Group membership is exclusive and within capacity.
pub open spec fn seats_wf(s: Seq<Seat>) -> bool {
    &&& forall|p: i64| #[trigger] seats_of(s, p) <= 1
    &&& forall|g: i64| #[trigger] members_of(s, g).len() <= GROUP_CAPACITY
}

proof fn lemma_push(s: Seq<Seat>, e: Seat)
    ensures
        s.push(e).drop_last() == s,
        s.push(e).last() == e,
{
    assert(s.push(e).drop_last() =~= s);
}

proof fn lemma_prefix_step(s: Seq<Seat>, i: int)
    requires
        0 <= i < s.len(),
    ensures
        s.subrange(0, i + 1).drop_last() == s.subrange(0, i),
        s.subrange(0, i + 1).last() == s[i],
{
    assert(s.subrange(0, i + 1).drop_last() =~= s.subrange(0, i));
}

/// Taking a player out removes its seat, leaves every other seat, and
/// shrinks no group.
proof fn lemma_without_player(s: Seq<Seat>, p: i64, q: i64, g: i64)
    ensures
        seats_of(without_player(s, p), q) == if q == p {
            0
        } else {
            seats_of(s, q)
        },
        group_of(without_player(s, p), q) == if q == p {
            None
        } else {
            group_of(s, q)
        },
        members_of(without_player(s, p), g).len() <= members_of(s, g).len(),
        seats_of(s, p) == 0 ==> without_player(s, p) == s,
    decreases s.len(),
{
    if s.len() > 0 {
        lemma_without_player(s.drop_last(), p, q, g);
        if s.last().member.id != p {
            lemma_push(without_player(s.drop_last(), p), s.last());
        }
        if seats_of(s, p) == 0 {
            assert(s.drop_last().push(s.last()) =~= s);
        }
    }
}

/// Dissolving a group empties it, leaves the other groups as they were, and
/// gives nobody a second seat.
proof fn lemma_without_group(s: Seq<Seat>, g: i64, q: i64, h: i64)
    ensures
        seats_of(without_group(s, g), q) <= seats_of(s, q),
        members_of(without_group(s, g), h) == if h == g {
            Seq::<Member>::empty()
        } else {
            members_of(s, h)
        },
        group_of(without_group(s, g), q) is Some ==> group_of(s, q) is Some,
    decreases s.len(),
{
    if s.len() > 0 {
        lemma_without_group(s.drop_last(), g, q, h);
        if s.last().group != g {
            lemma_push(without_group(s.drop_last(), g), s.last());
        }
    }
}

/// A player holds a seat exactly when it is in a group.
proof fn lemma_group_of_seated(s: Seq<Seat>, p: i64)
    ensures
        (group_of(s, p) is Some) <==> seats_of(s, p) > 0,
    decreases s.len(),
{
    if s.len() > 0 {
        lemma_group_of_seated(s.drop_last(), p);
    }
}

/// A group id names a group exactly while some player sits in it: no group
/// with an empty member list is ever kept.
pub proof fn lemma_no_empty_group(s: Seq<Seat>, g: i64)
    ensures
        members_of(s, g).len() > 0 <==> exists|i: int| 0 <= i < s.len() && #[trigger] s[i].group == g,
    decreases s.len(),
{
    if s.len() > 0 {
        let f = s.drop_last();
        lemma_no_empty_group(f, g);
        assert forall|i: int| 0 <= i < f.len() implies #[trigger] f[i] == s[i] by {}
        if exists|i: int| 0 <= i < s.len() && #[trigger] s[i].group == g {
            let i = choose|i: int| 0 <= i < s.len() && #[trigger] s[i].group == g;
            if i < f.len() {
                assert(f[i].group == g);
            }
        }
        if exists|i: int| 0 <= i < f.len() && #[trigger] f[i].group == g {
            let i = choose|i: int| 0 <= i < f.len() && #[trigger] f[i].group == g;
            assert(s[i].group == g);
        }
    }
}

/// A group as it is shown: its id and its members in the order they joined.
pub struct Group {
    pub id: i64,
    pub members: Vec<Member>,
}

impl Group {
    /// Whether player `user_id` is a member.
    pub fn contains_user(&self, user_id: i64) -> (r: bool)
        ensures
            r == ids_of(self.members@).contains(user_id),
    {
        lists_id(&self.members, user_id)
    }
}

/// Online players and the groups they formed. Every player sits in at most
/// one group, no group holds more than its capacity, and a group exists only
/// while it has members.
pub struct GroupDirectory {
    seats: Vec<Seat>,
}

impl GroupDirectory {
    pub closed spec fn view(&self) -> Seq<Seat> {
        self.seats@
    }

    pub open spec fn wf(&self) -> bool {
        seats_wf(self@)
    }

    /// A directory with no groups.
    pub fn new() -> (r: GroupDirectory)
        ensures
            r@ == Seq::<Seat>::empty(),
            r.wf(),
    {
        GroupDirectory { seats: Vec::new() }
    }

    /// The group that player `p` is in, if any.
    pub fn group_of_player(&self, p: i64) -> (r: Option<i64>)
        ensures
            r == group_of(self@, p),
    {
        let mut i: usize = self.seats.len();
        assert(self@.subrange(0, self@.len() as int) =~= self@);
        while i > 0
            invariant
                i <= self.seats.len(),
                group_of(self@, p) == group_of(self@.subrange(0, i as int), p),
            decreases i,
        {
            proof {
                lemma_prefix_step(self@, i - 1);
            }
            if self.seats[i - 1].member.id == p {
                return Some(self.seats[i - 1].group);
            }
            i = i - 1;
        }
        None
    }

    /// The members of group `g`, in the order they joined.
    pub fn group_members(&self, g: i64) -> (r: Vec<Member>)
        ensures
            r@ == members_of(self@, g),
    {
        let mut out: Vec<Member> = Vec::new();
        let mut i: usize = 0;
        while i < self.seats.len()
            invariant
                i <= self.seats.len(),
                out@ == members_of(self@.subrange(0, i as int), g),
            decreases self.seats.len() - i,
        {
            proof {
                lemma_prefix_step(self@, i as int);
            }
            if self.seats[i].group == g {
                out.push(self.seats[i].member);
            }
            i = i + 1;
        }
        assert(self@.subrange(0, self@.len() as int) =~= self@);
        out
    }

    /// Group `g`, when it exists.
    pub fn group(&self, g: i64) -> (r: Option<Group>)
        ensures
            r is Some <==> members_of(self@, g).len() > 0,
            r matches Some(x) ==> x.id == g && x.members@ == members_of(self@, g),
    {
        let members = self.group_members(g);
        if members.len() == 0 {
            None
        } else {
            Some(Group { id: g, members })
        }
    }

    /// The snapshot that player `p` is sent: the other members of its group,
    /// in the order they joined, or no one when it is in no group.
    pub fn snapshot_for(&self, p: i64) -> (r: Vec<Member>)
        ensures
            r@ == match group_of(self@, p) {
                Some(g) => peers_of(self@, g, p),
                None => Seq::<Member>::empty(),
            },
    {
        match self.group_of_player(p) {
            None => Vec::new(),
            Some(g) => {
                let mut out: Vec<Member> = Vec::new();
                let mut i: usize = 0;
                while i < self.seats.len()
                    invariant
                        i <= self.seats.len(),
                        out@ == peers_of(self@.subrange(0, i as int), g, p),
                    decreases self.seats.len() - i,
                {
                    proof {
                        lemma_prefix_step(self@, i as int);
                    }
                    if self.seats[i].group == g && self.seats[i].member.id != p {
                        out.push(self.seats[i].member);
                    }
                    i = i + 1;
                }
                assert(self@.subrange(0, self@.len() as int) =~= self@);
                out
            },
        }
    }

    /// Takes player `p` out of whatever group it is in; a group left empty
    /// is gone.
    pub fn remove_player(&mut self, p: i64)
        requires
            old(self).wf(),
        ensures
            final(self)@ == without_player(old(self)@, p),
            final(self).wf(),
            group_of(final(self)@, p) is None,
    {
        let ghost s = self@;
        let mut out: Vec<Seat> = Vec::new();
        let mut i: usize = 0;
        while i < self.seats.len()
            invariant
                self@ == s,
                i <= self.seats.len(),
                out@ == without_player(s.subrange(0, i as int), p),
            decreases self.seats.len() - i,
        {
            proof {
                lemma_prefix_step(s, i as int);
            }
            if self.seats[i].member.id != p {
                out.push(self.seats[i]);
            }
            i = i + 1;
        }
        assert(s.subrange(0, s.len() as int) =~= s);
        self.seats = out;
        proof {
            assert forall|q: i64| #[trigger] seats_of(self@, q) <= 1 by {
                lemma_without_player(s, p, q, 0);
            }
            assert forall|g: i64| #[trigger] members_of(self@, g).len() <= GROUP_CAPACITY by {
                lemma_without_player(s, p, p, g);
            }
            lemma_without_player(s, p, p, 0);
        }
    }

    /// Player `p` leaves group `g`; nothing changes when it is not in `g`.
    pub fn leave_group(&mut self, p: i64, g: i64)
        requires
            old(self).wf(),
        ensures
            final(self)@ == if group_of(old(self)@, p) == Some(g) {
                without_player(old(self)@, p)
            } else {
                old(self)@
            },
            final(self).wf(),
    {
        if self.group_of_player(p) == Some(g) {
            self.remove_player(p);
        }
    }

    /// Player `m` creates the group that bears its identity, with itself as
    /// the only member; it leaves any group it was in, and a group that bore
    /// that identity before is dissolved.
    pub fn create_group(&mut self, m: Member)
        requires
            old(self).wf(),
        ensures
            final(self)@ == without_group(without_player(old(self)@, m.id), m.id).push(
                Seat { group: m.id, member: m },
            ),
            final(self).wf(),
            group_of(final(self)@, m.id) == Some(m.id),
            members_of(final(self)@, m.id) == seq![m],
    {
        self.remove_player(m.id);
        let ghost s = self@;
        let mut out: Vec<Seat> = Vec::new();
        let mut i: usize = 0;
        while i < self.seats.len()
            invariant
                self@ == s,
                i <= self.seats.len(),
                out@ == without_group(s.subrange(0, i as int), m.id),
            decreases self.seats.len() - i,
        {
            proof {
                lemma_prefix_step(s, i as int);
            }
            if self.seats[i].group != m.id {
                out.push(self.seats[i]);
            }
            i = i + 1;
        }
        assert(s.subrange(0, s.len() as int) =~= s);
        let ghost t = out@;
        let seat = Seat { group: m.id, member: m };
        out.push(seat);
        self.seats = out;
        proof {
            lemma_push(t, seat);
            assert forall|q: i64| #[trigger] seats_of(self@, q) <= 1 by {
                lemma_without_group(s, m.id, q, 0);
                lemma_group_of_seated(s, m.id);
                assert(seats_of(self@, q) == seats_of(t, q) + if q == m.id { 1nat } else { 0nat });
            }
            assert forall|g: i64| #[trigger] members_of(self@, g).len() <= GROUP_CAPACITY by {
                lemma_without_group(s, m.id, 0, g);
            }
            lemma_without_group(s, m.id, 0, m.id);
            assert(members_of(self@, m.id) =~= seq![m]);
        }
    }

    /// Player `m` joins group `g`, leaving any other group it was in. The
    /// join is refused, and nothing changes, when `g` does not exist, is
    /// full, or already holds `m`.
    pub fn join_group(&mut self, m: Member, g: i64)
        requires
            old(self).wf(),
        ensures
            final(self)@ == if group_of(old(self)@, m.id) != Some(g) && 0 < members_of(old(self)@, g).len()
                < GROUP_CAPACITY {
                without_player(old(self)@, m.id).push(Seat { group: g, member: m })
            } else {
                old(self)@
            },
            final(self).wf(),
    {
        if self.group_of_player(m.id) == Some(g) {
            return;
        }
        let n = self.group_members(g).len();
        if n == 0 || n >= GROUP_CAPACITY {
            return;
        }
        let ghost s0 = self@;
        self.remove_player(m.id);
        let ghost s = self@;
        let seat = Seat { group: g, member: m };
        self.seats.push(seat);
        proof {
            lemma_push(s, seat);
            assert(self@ == s.push(seat));
            assert forall|q: i64| #[trigger] seats_of(self@, q) <= 1 by {
                lemma_without_player(s0, m.id, q, g);
                assert(seats_of(self@, q) == seats_of(s, q) + if q == m.id { 1nat } else { 0nat });
            }
            assert forall|h: i64| #[trigger] members_of(self@, h).len() <= GROUP_CAPACITY by {
                lemma_without_player(s0, m.id, m.id, h);
            }
        }
    }
}

} // verus!
