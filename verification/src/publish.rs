//! A model of atomic publication: the output is written to a temporary
//! path and moved onto the final path by an atomic rename, so a reader
//! of the final path never sees a truncated file, however the writer is
//! interrupted.

use vstd::prelude::*;

verus! {

/// What a filesystem path holds in the model: nothing, a truncated
/// write, or complete data.
pub ghost enum FileContent {
    Absent,
    Partial,
    Data(Seq<u8>),
}

/// The two paths the protocol touches.
pub ghost struct PublishState {
    pub temp: FileContent,
    pub dest: FileContent,
}

/// One step the publishing task may take, interruption included: a write
/// to the temporary path either completes or leaves it partial; the old
/// output may be removed; and the rename is atomic, moving the complete
/// temporary file onto the destination whole or not at all. No step
/// writes the destination directly.
pub open spec fn publish_step(s1: PublishState, s2: PublishState, data: Seq<u8>) -> bool {
    ||| s2 == (PublishState { temp: FileContent::Data(data), dest: s1.dest })
    ||| s2 == (PublishState { temp: FileContent::Partial, dest: s1.dest })
    ||| s2 == (PublishState { temp: s1.temp, dest: FileContent::Absent })
    ||| (s1.temp == FileContent::Data(data) && s2 == (PublishState {
        temp: FileContent::Absent,
        dest: FileContent::Data(data),
    }))
    ||| s2 == s1
}

/// Atomic publication: across any interleaving of protocol steps and
/// interruptions, the final path never holds a truncated file — at every
/// moment it is the previous output, absent during the explicit swap, or
/// the complete new output.
pub proof fn lemma_publication_atomic(states: Seq<PublishState>, data: Seq<u8>)
    requires
        states.len() > 0,
        states[0].dest != FileContent::Partial,
        forall|i: int| 0 <= i < states.len() - 1 ==> publish_step(
            #[trigger] states[i],
            states[i + 1],
            data,
        ),
    ensures
        forall|i: int| 0 <= i < states.len() ==> (#[trigger] states[i]).dest
            != FileContent::Partial,
        forall|i: int| 0 <= i < states.len() ==> ((#[trigger] states[i]).dest == states[0].dest
            || states[i].dest == FileContent::Absent || states[i].dest == FileContent::Data(data)),
    decreases states.len(),
{
    if states.len() > 1 {
        let shorter = states.drop_last();
        assert(forall|i: int| 0 <= i < shorter.len() ==> #[trigger] shorter[i] == states[i]);
        lemma_publication_atomic(shorter, data);
        assert(publish_step(states[states.len() - 2], states[states.len() - 1], data));
        let prev = states.len() - 2;
        assert(states[prev] == shorter[prev]);
        assert(shorter[prev].dest != FileContent::Partial);
        assert(shorter[prev].dest == shorter[0].dest || shorter[prev].dest == FileContent::Absent
            || shorter[prev].dest == FileContent::Data(data));
        assert(shorter[0] == states[0]);
        assert forall|i: int| 0 <= i < states.len() implies (#[trigger] states[i]).dest
            != FileContent::Partial by {
            if i < states.len() - 1 {
                assert(states[i] == shorter[i]);
            }
        }
        assert forall|i: int| 0 <= i < states.len() implies ((#[trigger] states[i]).dest
            == states[0].dest || states[i].dest == FileContent::Absent || states[i].dest
            == FileContent::Data(data)) by {
            if i < states.len() - 1 {
                assert(states[i] == shorter[i]);
            }
        }
    }
}

} // verus!
