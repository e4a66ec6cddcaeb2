use vstd::prelude::*;
use crate::frame::{tag_of, fresh, next_highest, session_tag, SequenceGate, DISCONNECT_TAG};

verus! {

/// Whether an outbound datagram is relayed to the peers, given the latched
/// session tag: it must carry a tag, not the disconnect tag, and match the
/// latched tag once there is one.
pub open spec fn relays(latched: Option<u8>, frame: Seq<u8>) -> bool {
    match tag_of(frame) {
        None => false,
        Some(t) => t != DISCONNECT_TAG && (latched is None || latched == Some(t)),
    }
}

/// The latched session tag after an outbound datagram: the first tag that is
/// not the disconnect tag is latched, and never replaced.
pub open spec fn latch_after(latched: Option<u8>, frame: Seq<u8>) -> Option<u8> {
    match latched {
        Some(t) => Some(t),
        None => match tag_of(frame) {
            Some(t) => if t != DISCONNECT_TAG {
                Some(t)
            } else {
                None
            },
            None => None,
        },
    }
}

/// The latched tag after a run of outbound datagrams.
pub open spec fn latch_run(latched: Option<u8>, frames: Seq<Seq<u8>>) -> Option<u8>
    decreases frames.len(),
{
    if frames.len() == 0 {
        latched
    } else {
        latch_after(latch_run(latched, frames.drop_last()), frames.last())
    }
}

/// The outbound filter of the fan-out: it latches the session tag of the
/// local game and passes only that session's datagrams.
pub struct SessionLatch {
    tag: Option<u8>,
}

impl SessionLatch {
    pub closed spec fn latched_spec(&self) -> Option<u8> {
        self.tag
    }

    /// A latch with no tag yet.
    pub fn new() -> (r: SessionLatch)
        ensures
            r.latched_spec() is None,
    {
        SessionLatch { tag: None }
    }

    /// The latched session tag, if any.
    pub fn latched(&self) -> (r: Option<u8>)
        ensures
            r == self.latched_spec(),
    {
        self.tag
    }

    /// Decides whether a datagram read from the local game is relayed, and
    /// latches its tag when it is the first eligible one.
    pub fn pass(&mut self, frame: &[u8]) -> (r: bool)
        ensures
            r == relays(old(self).latched_spec(), frame@),
            final(self).latched_spec() == latch_after(old(self).latched_spec(), frame@),
            r ==> final(self).latched_spec() == tag_of(frame@),
    {
        match session_tag(frame) {
            None => false,
            Some(t) => {
                if t == DISCONNECT_TAG {
                    false
                } else {
                    match self.tag {
                        None => {
                            self.tag = Some(t);
                            true
                        },
                        Some(l) => l == t,
                    }
                }
            },
        }
    }
}

/// Once a tag `t` is latched it stays latched through any run of datagrams,
/// and no datagram of another tag, nor a disconnect datagram, is relayed.
pub proof fn lemma_latch_is_final(t: u8, frames: Seq<Seq<u8>>)
    ensures
        latch_run(Some(t), frames) == Some(t),
        forall|i: int| 0 <= i < frames.len() && #[trigger] relays(latch_run(Some(t), frames.take(i)), frames[i])
            ==> tag_of(frames[i]) == Some(t) && t != DISCONNECT_TAG,
    decreases frames.len(),
{
    if frames.len() > 0 {
        lemma_latch_is_final(t, frames.drop_last());
    }
    assert forall|i: int| 0 <= i < frames.len() && #[trigger] relays(latch_run(Some(t), frames.take(i)), frames[i])
        implies tag_of(frames[i]) == Some(t) && t != DISCONNECT_TAG by {
        lemma_latch_is_final(t, frames.take(i));
    }
}

/// Whether an inbound tunnel frame is injected into the local game: never a
/// disconnect frame, and never a stale or repeated sequence number.
pub open spec fn injects(highest: Option<u64>, frame: Seq<u8>, seq: Option<u64>) -> bool {
    tag_of(frame) != Some(DISCONNECT_TAG) && fresh(highest, seq)
}

/// The inbound filter of one tunnel connection.
pub struct TunnelInbound {
    pub gate: SequenceGate,
}

impl TunnelInbound {
    /// The filter of a newly accepted connection.
    pub fn new() -> (r: TunnelInbound)
        ensures
            r.gate.highest is None,
    {
        TunnelInbound { gate: SequenceGate::new() }
    }

    /// Decides whether a frame read from the tunnel is injected; `seq` is the
    /// sequence number of its heartbeat, if it carries one. Only an injected
    /// frame moves the highest sequence number.
    pub fn accept(&mut self, frame: &[u8], seq: Option<u64>) -> (r: bool)
        ensures
            r == injects(old(self).gate.highest, frame@, seq),
            final(self).gate.highest == if r {
                next_highest(old(self).gate.highest, seq)
            } else {
                old(self).gate.highest
            },
    {
        match session_tag(frame) {
            Some(t) => {
                if t == DISCONNECT_TAG {
                    return false;
                }
            },
            None => {},
        }
        self.gate.accept(seq)
    }
}

} // verus!
