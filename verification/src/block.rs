//! Fixed-capacity blocks of optional coded events, with fill tracking.

use vstd::prelude::*;

use crate::event::{Event, EventCoordless};
use crate::BLOCK_AREA;

verus! {

/// Errors surfaced by block writes.
#[derive(Clone, Copy, Debug, PartialEq, Eq, Structural)]
pub enum BlockError {
    /// An event already occupies the slot at `idx` in this block; the write
    /// was rejected and the block left unchanged.
    AlreadyExists { idx: usize },
}

/// Number of occupied slots in a block's event table.
pub open spec fn count_filled(s: Seq<Option<EventCoordless>>) -> int
    decreases s.len(),
{
    if s.len() == 0 {
        0
    } else {
        count_filled(s.drop_last()) + if s.last() is Some {
            1int
        } else {
            0int
        }
    }
}

pub proof fn lemma_count_filled_bounds(s: Seq<Option<EventCoordless>>)
    ensures
        0 <= count_filled(s) <= s.len(),
    decreases s.len(),
{
    if s.len() > 0 {
        lemma_count_filled_bounds(s.drop_last());
    }
}

/// Occupying a previously empty slot raises the fill count by exactly one.
pub proof fn lemma_count_filled_update(s: Seq<Option<EventCoordless>>, i: int, v: EventCoordless)
    requires
        0 <= i < s.len(),
        s[i] is None,
    ensures
        count_filled(s.update(i, Some(v))) == count_filled(s) + 1,
    decreases s.len(),
{
    let t = s.update(i, Some(v));
    if i == s.len() - 1 {
        assert(t.drop_last() =~= s.drop_last());
    } else {
        assert(t.drop_last() =~= s.drop_last().update(i, Some(v)));
        lemma_count_filled_update(s.drop_last(), i, v);
    }
}

/// The fill count reaches the slot count exactly when every slot is occupied.
pub proof fn lemma_count_filled_full(s: Seq<Option<EventCoordless>>)
    ensures
        count_filled(s) == s.len() <==> (forall|i: int| 0 <= i < s.len() ==> s[i] is Some),
    decreases s.len(),
{
    if s.len() > 0 {
        lemma_count_filled_full(s.drop_last());
        lemma_count_filled_bounds(s.drop_last());
        if count_filled(s) == s.len() {
            assert forall|i: int| 0 <= i < s.len() implies s[i] is Some by {
                if i < s.len() - 1 {
                    assert(s.drop_last()[i] is Some);
                }
            }
        }
        if forall|i: int| 0 <= i < s.len() ==> s[i] is Some {
            assert(forall|i: int| 0 <= i < s.drop_last().len() ==> s.drop_last()[i] is Some);
        }
    }
}

/// The slot table of a freshly created block: every slot vacant.
pub open spec fn empty_events() -> Seq<Option<EventCoordless>> {
    Seq::new(BLOCK_AREA as nat, |i: int| None::<EventCoordless>)
}

/// One `BLOCK_SIZE_BIG x BLOCK_SIZE_BIG` tile of optional coded events for a
/// single color channel, laid out row-major, with a count of occupied slots.
pub struct Block {
    /// Events organized in row-major order.
    pub events: Vec<Option<EventCoordless>>,
    /// Number of occupied slots; the block is full at `BLOCK_AREA`.
    pub fill_count: u16,
}

impl Block {
    /// Structural invariant: the slot table has exactly `BLOCK_AREA` entries
    /// and `fill_count` counts the occupied ones.
    pub open spec fn wf(self) -> bool {
        &&& self.events@.len() == BLOCK_AREA
        &&& self.fill_count as int == count_filled(self.events@)
    }

    /// Creates an empty block: every slot vacant, fill count zero.
    pub fn new() -> (r: Block)
        ensures
            r.wf(),
            r.fill_count == 0,
            r.events@ == empty_events(),
            forall|i: int| 0 <= i < BLOCK_AREA ==> r.events@[i] is None,
    {
        let mut events: Vec<Option<EventCoordless>> = Vec::new();
        let mut i: usize = 0;
        while i < BLOCK_AREA
            invariant
                i <= BLOCK_AREA,
                events@.len() == i,
                count_filled(events@) == 0,
                forall|j: int| 0 <= j < i ==> events@[j] is None,
            decreases BLOCK_AREA - i,
        {
            let ghost prev = events@;
            events.push(None);
            proof {
                assert(events@.drop_last() =~= prev);
            }
            i = i + 1;
        }
        proof {
            assert(events@ =~= empty_events());
        }
        Block { events, fill_count: 0 }
    }

    /// Whether every slot of the block is occupied.
    pub fn is_filled(&self) -> (r: bool)
        requires
            self.wf(),
        ensures
            r <==> (forall|i: int| 0 <= i < BLOCK_AREA ==> self.events@[i] is Some),
            r <==> self.fill_count == BLOCK_AREA,
    {
        proof {
            lemma_count_filled_full(self.events@);
        }
        self.fill_count == (BLOCK_AREA as u16)
    }

    /// Stores `event`'s payload in slot `idx` if that slot is still vacant;
    /// an occupied slot rejects the write with `AlreadyExists` and leaves the
    /// block untouched.
    pub fn set_event(&mut self, event: &Event, idx: usize) -> (res: Result<(), BlockError>)
        requires
            old(self).wf(),
            idx < BLOCK_AREA,
        ensures
            final(self).wf(),
            old(self).events@[idx as int] is Some ==> {
                &&& res == Err::<(), BlockError>(BlockError::AlreadyExists { idx })
                &&& *final(self) == *old(self)
            },
            old(self).events@[idx as int] is None ==> {
                &&& res == Ok::<(), BlockError>(())
                &&& final(self).events@ == old(self).events@.update(
                    idx as int,
                    Some(EventCoordless { d: event.d, delta_t: event.delta_t }),
                )
                &&& final(self).fill_count == old(self).fill_count + 1
            },
    {
        match self.events[idx] {
            Some(_) => Err(BlockError::AlreadyExists { idx }),
            None => {
                let payload = EventCoordless::from_event(event);
                proof {
                    lemma_count_filled_bounds(self.events@);
                    lemma_count_filled_update(self.events@, idx as int, payload);
                }
                self.events.set(idx, Some(payload));
                self.fill_count = self.fill_count + 1;
                Ok(())
            },
        }
    }
}

} // verus!
