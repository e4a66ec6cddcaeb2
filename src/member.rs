use vstd::prelude::*;

verus! {

/// The address at which a player's tunnel listener can be reached.
#[derive(Clone, Copy, Debug, PartialEq, Eq)]
pub enum Endpoint {
    V4([u8; 4]),
    V6([u16; 8]),
}

/// A player, by numeric identity, with the address it announced.
#[derive(Clone, Copy, Debug, PartialEq, Eq)]
pub struct Member {
    pub id: i64,
    pub addr: Endpoint,
}

/// The identities that a member list names.
pub open spec fn ids_of(members: Seq<Member>) -> Set<i64> {
    Set::new(|id: i64| exists|i: int| 0 <= i < members.len() && #[trigger] members[i].id == id)
}

/// Whether a member list names `id`.
pub fn lists_id(members: &Vec<Member>, id: i64) -> (r: bool)
    ensures
        r == ids_of(members@).contains(id),
{
    let mut i: usize = 0;
    while i < members.len()
        invariant
            i <= members.len(),
            forall|k: int| 0 <= k < i ==> #[trigger] members@[k].id != id,
        decreases members.len() - i,
    {
        if members[i].id == id {
            return true;
        }
        i = i + 1;
    }
    false
}

} // verus!
