//! Observers of the event stream that need no outside machinery, and the
//! bounded history that keeps the most recent events.
use vstd::prelude::*;
use std::collections::VecDeque;

verus! {

/// No-op emitter for contexts that don't need events (e.g. tests).
pub struct NullEmitter;

/// Prints human-readable event summaries to stderr; the printing is done by
/// the application.
pub struct ConsoleLogger;

/// The room of an accumulator: its capacity, but never less than one, since
/// the event just received is always kept.
pub open spec fn room(max_events: usize) -> nat {
    if max_events == 0 {
        1
    } else {
        max_events as nat
    }
}

/// The last `n` items of `s`, or all of them when there are fewer.
pub open spec fn last_n<E>(s: Seq<E>, n: nat) -> Seq<E> {
    if s.len() <= n {
        s
    } else {
        s.subrange(s.len() - n, s.len() as int)
    }
}

/// Accumulates events in memory with a bounded capacity: once full, each
/// new event pushes out the oldest.
pub struct EventAccumulator<E> {
    events: VecDeque<E>,
    max_events: usize,
}

impl<E> View for EventAccumulator<E> {
    type V = Seq<E>;

    closed spec fn view(&self) -> Seq<E> {
        self.events@
    }
}

impl<E> EventAccumulator<E> {
    /// The capacity the accumulator was made with.
    pub closed spec fn capacity(&self) -> usize {
        self.max_events
    }

    #[verifier::type_invariant]
    closed spec fn within_room(&self) -> bool {
        self.events@.len() <= room(self.max_events)
    }

    /// An empty accumulator that keeps at most `max_events` events.
    pub fn new(max_events: usize) -> (r: Self)
        ensures
            r@ == Seq::<E>::empty(),
            r.capacity() == max_events,
    {
        EventAccumulator { events: VecDeque::new(), max_events }
    }

    /// Keep `event`, dropping the oldest when the accumulator is full.
    pub fn on_event(&mut self, event: E)
        ensures
            final(self)@ == last_n(old(self)@.push(event), room(old(self).capacity())),
            final(self).capacity() == old(self).capacity(),
    {
        proof {
            use_type_invariant(&*self);
        }
        let mut events = VecDeque::new();
        std::mem::swap(&mut events, &mut self.events);
        let ghost before = events@;
        if events.len() >= self.max_events {
            events.pop_front();
        }
        events.push_back(event);
        proof {
            let after = before.push(event);
            if before.len() >= self.max_events {
                if before.len() > 0 {
                    assert(events@ =~= after.subrange(
                        after.len() - room(self.max_events),
                        after.len() as int,
                    ));
                } else {
                    assert(events@ =~= after);
                }
            } else {
                assert(events@ =~= after);
            }
        }
        std::mem::swap(&mut events, &mut self.events);
    }

    /// All accumulated events, oldest first.
    pub fn all(&self) -> (r: &VecDeque<E>)
        ensures
            r@ == self@,
    {
        &self.events
    }

    /// How many events are held.
    pub fn len(&self) -> (r: usize)
        ensures
            r == self@.len(),
    {
        self.events.len()
    }

    /// The position, among the events held, where the most recent `n`
    /// begin.
    pub fn recent_start(&self, n: usize) -> (r: usize)
        ensures
            r == self@.len() - last_n(self@, n as nat).len(),
            self@.subrange(r as int, self@.len() as int) == last_n(self@, n as nat),
    {
        let len = self.events.len();
        let start = if len > n {
            len - n
        } else {
            0
        };
        proof {
            assert(self@.subrange(start as int, self@.len() as int) =~= last_n(self@, n as nat));
        }
        start
    }

    /// Copies of the most recent `n` events (all of them when fewer are
    /// held), oldest first.
    pub fn recent(&self, n: usize) -> (r: Vec<E>) where E: Clone
        ensures
            r@.len() == last_n(self@, n as nat).len(),
            forall|i: int|
                0 <= i < r@.len() ==> vstd::pervasive::cloned(
                    last_n(self@, n as nat)[i],
                    #[trigger] r@[i],
                ),
    {
        let start = self.recent_start(n);
        let len = self.events.len();
        let mut out: Vec<E> = Vec::new();
        let mut i = start;
        while i < len
            invariant
                start <= i <= len,
                len == self@.len(),
                self@.subrange(start as int, len as int) == last_n(self@, n as nat),
                out@.len() == i - start,
                forall|k: int|
                    0 <= k < out@.len() ==> vstd::pervasive::cloned(
                        self@[start + k],
                        #[trigger] out@[k],
                    ),
            decreases len - i,
        {
            let e = self.events[i].clone();
            out.push(e);
            i = i + 1;
        }
        proof {
            assert forall|k: int| 0 <= k < out@.len() implies vstd::pervasive::cloned(
                last_n(self@, n as nat)[k],
                #[trigger] out@[k],
            ) by {
                assert(last_n(self@, n as nat)[k] == self@[start + k]);
            }
        }
        out
    }

    /// Clear all accumulated events.
    pub fn clear(&mut self)
        ensures
            final(self)@ == Seq::<E>::empty(),
            final(self).capacity() == old(self).capacity(),
    {
        let mut events = VecDeque::new();
        std::mem::swap(&mut events, &mut self.events);
    }
}

/// An accumulator holds the most recent events it received, as many as its
/// capacity allows (and at least the last one), in the order received.
pub proof fn law_accumulator_keeps_the_latest<E>(held: Seq<E>, received: Seq<E>, max_events: usize, e: E)
    requires
        held == last_n(received, room(max_events)),
    ensures
        last_n(held.push(e), room(max_events)) == last_n(received.push(e), room(max_events)),
{
    let n = room(max_events);
    let r2 = received.push(e);
    if received.len() <= n {
        assert(held =~= received);
    } else {
        let h2 = held.push(e);
        assert(h2.len() == n + 1);
        assert(last_n(h2, n) =~= last_n(r2, n));
    }
}

/// What an accumulator holding `held` holds after receiving `events`, one
/// `on_event` each, in order.
pub open spec fn after_events<E>(held: Seq<E>, events: Seq<E>, max_events: usize) -> Seq<E>
    decreases events.len(),
{
    if events.len() == 0 {
        held
    } else {
        after_events(last_n(held.push(events[0]), room(max_events)), events.drop_first(), max_events)
    }
}

proof fn lemma_after_events<E>(held: Seq<E>, received: Seq<E>, events: Seq<E>, max_events: usize)
    requires
        held == last_n(received, room(max_events)),
    ensures
        after_events(held, events, max_events) == last_n(received + events, room(max_events)),
    decreases events.len(),
{
    if events.len() > 0 {
        law_accumulator_keeps_the_latest(held, received, max_events, events[0]);
        assert(received.push(events[0]) + events.drop_first() =~= received + events);
        lemma_after_events(
            last_n(held.push(events[0]), room(max_events)),
            received.push(events[0]),
            events.drop_first(),
            max_events,
        );
    }
}

/// A new accumulator that receives `e_1, …, e_k` holds the last
/// `min(k, capacity)` of them (at least the last one), oldest first, and so
/// never more than its room.
pub proof fn law_accumulator_holds_the_last_events<E>(events: Seq<E>, max_events: usize)
    ensures
        after_events(Seq::empty(), events, max_events) == last_n(events, room(max_events)),
        after_events(Seq::empty(), events, max_events).len() <= room(max_events),
        after_events(Seq::empty(), events, max_events).len() == if events.len() <= room(max_events) {
            events.len()
        } else {
            room(max_events)
        },
{
    assert(Seq::<E>::empty() == last_n(Seq::<E>::empty(), room(max_events)));
    lemma_after_events(Seq::empty(), Seq::empty(), events, max_events);
    assert(Seq::<E>::empty() + events =~= events);
}

} // verus!
