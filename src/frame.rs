use vstd::prelude::*;

verus! {

/// Session-tag value that the game reserves for disconnect notifications.
pub const DISCONNECT_TAG: u8 = 4;

/// Bytes before the inner heartbeat region, and after it.
pub const HEARTBEAT_MARGIN: usize = 4;

/// The session tag of a datagram: its byte at offset 1, when it has one.
pub open spec fn tag_of(frame: Seq<u8>) -> Option<u8> {
    if frame.len() >= 2 {
        Some(frame[1])
    } else {
        None
    }
}

/// Reads the session tag of a datagram.
pub fn session_tag(frame: &[u8]) -> (r: Option<u8>)
    ensures
        r == tag_of(frame@),
{
    if frame.len() >= 2 {
        Some(frame[1])
    } else {
        None
    }
}

/// Whether a datagram carries the reserved disconnect tag.
pub fn is_disconnect(frame: &[u8]) -> (r: bool)
    ensures
        r == (tag_of(frame@) == Some(DISCONNECT_TAG)),
{
    match session_tag(frame) {
        Some(t) => t == DISCONNECT_TAG,
        None => false,
    }
}

/// Start and end of the inner heartbeat region of a frame of `len` bytes,
/// when the frame is long enough to hold one.
pub fn heartbeat_region(len: usize) -> (r: Option<(usize, usize)>)
    ensures
        len >= 2 * HEARTBEAT_MARGIN ==> r == Some((HEARTBEAT_MARGIN, (len - HEARTBEAT_MARGIN) as usize)),
        len < 2 * HEARTBEAT_MARGIN ==> r is None,
{
    if len >= 2 * HEARTBEAT_MARGIN {
        Some((HEARTBEAT_MARGIN, len - HEARTBEAT_MARGIN))
    } else {
        None
    }
}

/// Whether a frame with sequence number `seq` passes a connection whose
/// highest sequence number so far is `highest`.
pub open spec fn fresh(highest: Option<u64>, seq: Option<u64>) -> bool {
    match seq {
        None => true,
        Some(s) => match highest {
            None => true,
            Some(h) => s > h,
        },
    }
}

/// The highest sequence number of a connection after it saw `seq`.
pub open spec fn next_highest(highest: Option<u64>, seq: Option<u64>) -> Option<u64> {
    if seq is Some && fresh(highest, seq) {
        seq
    } else {
        highest
    }
}

/// The highest sequence number after a run of frames, from a fresh connection.
pub open spec fn highest_after(seqs: Seq<Option<u64>>) -> Option<u64>
    decreases seqs.len(),
{
    if seqs.len() == 0 {
        None
    } else {
        next_highest(highest_after(seqs.drop_last()), seqs.last())
    }
}

/// Per-connection duplicate filter on heartbeat sequence numbers.
pub struct SequenceGate {
    pub highest: Option<u64>,
}

impl SequenceGate {
    /// A gate that has seen no sequence number.
    pub fn new() -> (r: SequenceGate)
        ensures
            r.highest is None,
    {
        SequenceGate { highest: None }
    }

    /// Decides whether a frame with sequence number `seq` passes; frames
    /// without one always pass. A passing sequence number becomes the highest.
    pub fn accept(&mut self, seq: Option<u64>) -> (r: bool)
        ensures
            r == fresh(old(self).highest, seq),
            final(self).highest == next_highest(old(self).highest, seq),
    {
        match seq {
            None => true,
            Some(s) => {
                let pass = match self.highest {
                    None => true,
                    Some(h) => s > h,
                };
                if pass {
                    self.highest = Some(s);
                }
                pass
            },
        }
    }
}

/// After any run of frames on one connection, a frame with sequence number
/// `s` passes exactly when `s` is above every sequence number seen before.
pub proof fn lemma_gate_passes_only_new_highs(seqs: Seq<Option<u64>>, s: u64)
    ensures
        fresh(highest_after(seqs), Some(s)) <==> (forall|i: int|
            0 <= i < seqs.len() && #[trigger] seqs[i] is Some ==> seqs[i]->Some_0 < s),
    decreases seqs.len(),
{
    if seqs.len() > 0 {
        let front = seqs.drop_last();
        lemma_gate_passes_only_new_highs(front, s);
        lemma_highest_is_seen_max(front);
        assert forall|i: int| 0 <= i < front.len() implies front[i] == seqs[i] by {}
        let l = seqs.len() - 1;
        if fresh(highest_after(seqs), Some(s)) {
            assert forall|i: int| 0 <= i < seqs.len() && #[trigger] seqs[i] is Some implies seqs[i]->Some_0 < s by {
                if i < l {
                    assert(front[i] == seqs[i]);
                }
            }
        } else {
            if (forall|i: int| 0 <= i < seqs.len() && #[trigger] seqs[i] is Some ==> seqs[i]->Some_0 < s) {
                assert forall|i: int| 0 <= i < front.len() && #[trigger] front[i] is Some implies front[i]->Some_0 < s by {
                    assert(front[i] == seqs[i]);
                }
            }
        }
    }
}

/// The highest sequence number of a connection is one it has seen, and no
/// sequence number seen is above it.
pub proof fn lemma_highest_is_seen_max(seqs: Seq<Option<u64>>)
    ensures
        highest_after(seqs) is None <==> (forall|i: int| 0 <= i < seqs.len() ==> #[trigger] seqs[i] is None),
        forall|i: int| 0 <= i < seqs.len() && #[trigger] seqs[i] is Some
            ==> highest_after(seqs) is Some && seqs[i]->Some_0 <= highest_after(seqs)->Some_0,
    decreases seqs.len(),
{
    if seqs.len() > 0 {
        let front = seqs.drop_last();
        lemma_highest_is_seen_max(front);
        assert forall|i: int| 0 <= i < front.len() implies front[i] == seqs[i] by {}
    }
}

} // verus!
