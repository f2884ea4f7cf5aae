use vstd::prelude::*;

verus! {

/// An event of an operation that runs through its phases in a fixed
/// order. Some phases are reported once, others again and again with a
/// count of what is done out of a total.
pub trait Phased: Sized {
    /// The place of the event's phase in the order of phases, from zero.
    spec fn phase(&self) -> nat;

    /// What is done and the total, where the event counts.
    spec fn count(&self) -> Option<(usize, usize)>;

    /// Whether an operation may go past the phase at this place without
    /// an event.
    spec fn skippable(phase: nat) -> bool;

    /// The place of the event's phase.
    fn phase_number(&self) -> (n: u8)
        ensures
            n == self.phase(),
    ;

    /// What is done and the total, where the event counts.
    fn counters(&self) -> (c: Option<(usize, usize)>)
        ensures
            c == self.count(),
    ;

    /// Whether the phase at this place may be left out.
    fn can_skip(phase: u8) -> (skip: bool)
        ensures
            skip == Self::skippable(phase as nat),
    ;
}

/// Whether `next` may come after `prev` (or first, where there is no
/// `prev`). The first event is of the first phase. An event of the same
/// phase must count, under the same total, no less than the one before
/// it. An event of a later phase must be of the next phase, or of the one
/// after it where the next may be left out. A counting event never counts
/// more than its total.
pub open spec fn in_order<P: Phased>(prev: Option<P>, next: P) -> bool {
    &&& next.count() matches Some(c) ==> c.0 <= c.1
    &&& match prev {
        None => next.phase() == 0,
        Some(before) => if next.phase() == before.phase() {
            &&& before.count() matches Some(b)
            &&& next.count() matches Some(c)
            &&& c.1 == b.1
            &&& b.0 <= c.0
        } else {
            ||| next.phase() == before.phase() + 1
            ||| next.phase() == before.phase() + 2 && P::skippable(before.phase() + 1)
        },
    }
}

/// Whether each event of a run may come after the one before it.
pub open spec fn ordered<P: Phased>(events: Seq<P>) -> bool {
    forall|i: int|
        0 <= i < events.len() ==> in_order(
            if i == 0 {
                None
            } else {
                Some(events[i - 1])
            },
            #[trigger] events[i],
        )
}

/// An event that came out of order.
#[derive(Clone, Copy, Debug, PartialEq, Eq, Structural)]
pub struct OutOfOrder;

/// Lets the events of one operation through in their order, and no
/// others.
pub struct Reporter<P> {
    last: Option<P>,
    passed: Ghost<Seq<P>>,
}

impl<P: Phased + Copy> Reporter<P> {
    /// The events let through so far.
    pub closed spec fn accepted(&self) -> Seq<P> {
        self.passed@
    }

    /// The events let through are in order, and the last of them is kept.
    pub closed spec fn wf(&self) -> bool {
        &&& ordered(self.passed@)
        &&& self.last == if self.passed@.len() == 0 {
            None
        } else {
            Some(self.passed@.last())
        }
    }

    /// What was let through came in order.
    pub proof fn lemma_ordered(&self)
        requires
            self.wf(),
        ensures
            ordered(self.accepted()),
    {
    }

    /// A reporter that has let nothing through.
    pub fn new() -> (reporter: Self)
        ensures
            reporter.wf(),
            reporter.accepted() == Seq::<P>::empty(),
    {
        Reporter { last: None, passed: Ghost(Seq::empty()) }
    }

    /// Lets `event` through if it may come next, and refuses it otherwise.
    pub fn accept(&mut self, event: P) -> (outcome: Result<P, OutOfOrder>)
        requires
            old(self).wf(),
        ensures
            final(self).wf(),
            outcome == if in_order(
                if old(self).accepted().len() == 0 {
                    None
                } else {
                    Some(old(self).accepted().last())
                },
                event,
            ) {
                Ok::<P, OutOfOrder>(event)
            } else {
                Err::<P, OutOfOrder>(OutOfOrder)
            },
            final(self).accepted() == if outcome is Ok {
                old(self).accepted().push(event)
            } else {
                old(self).accepted()
            },
    {
        let phase = event.phase_number();
        let count = event.counters();
        let within = match count {
            Some(c) => c.0 <= c.1,
            None => true,
        };
        let fits = match &self.last {
            None => phase == 0,
            Some(before) => {
                let was = before.phase_number();
                if phase == was {
                    match (before.counters(), count) {
                        (Some(b), Some(c)) => c.1 == b.1 && b.0 <= c.0,
                        _ => false,
                    }
                } else if was == u8::MAX {
                    false
                } else if phase == was + 1 {
                    true
                } else if was == u8::MAX - 1 {
                    false
                } else {
                    phase == was + 2 && P::can_skip(was + 1)
                }
            },
        };
        if within && fits {
            proof {
                let before = self.passed@;
                let after = before.push(event);
                assert forall|i: int| 0 <= i < after.len() implies in_order(
                    if i == 0 {
                        None
                    } else {
                        Some(after[i - 1])
                    },
                    #[trigger] after[i],
                ) by {
                    if i < before.len() {
                        assert(after[i] == before[i]);
                        if i > 0 {
                            assert(after[i - 1] == before[i - 1]);
                        }
                    }
                }
                self.passed = Ghost(after);
            }
            self.last = Some(event);
            Ok(event)
        } else {
            Err(OutOfOrder)
        }
    }
}

} // verus!
