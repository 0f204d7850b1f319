//! Typed event queues, and the manager that keeps one for each event type.
//!
//! The layout is that of the component stores: an [`EventQueue<E>`] is
//! typed, the manager keeps each behind a [`QueueSlot`] that has forgotten
//! the type, and [`EventQueueTrait`] says what can be asked of a queue
//! without knowing the type.

use crate::erasure::{
    any_mut_to, any_ref_to, erased, first_marked, is_first_marked, lemma_first_marked_exists,
    lemma_first_marked_is_unique, lemma_first_marked_push, AnyMut, AnyRef, Erased,
};
use std::collections::VecDeque;
use vstd::prelude::*;

verus! {

/// Anything that owns its data can be an event.
pub trait Event: 'static {

}

impl<T: 'static> Event for T {

}

/// The events of one type that wait to be taken, oldest first.
pub struct EventQueue<E: Event> {
    events: VecDeque<E>,
}

impl<E: Event> View for EventQueue<E> {
    type V = Seq<E>;

    closed spec fn view(&self) -> Seq<E> {
        self.events@
    }
}

impl<E: Event> EventQueue<E> {
    pub fn new() -> (queue: Self)
        ensures
            queue@ == Seq::<E>::empty(),
    {
        Self { events: VecDeque::new() }
    }

    /// Puts `event` behind the events that wait.
    pub fn push(&mut self, event: E)
        ensures
            final(self)@ == old(self)@.push(event),
    {
        self.events.push_back(event);
    }

    /// Takes the oldest event, if one waits.
    pub fn pop(&mut self) -> (event: Option<E>)
        ensures
            match event {
                Some(e) => old(self)@.len() > 0 && e == old(self)@.first() && final(self)@
                    == old(self)@.drop_first(),
                None => old(self)@.len() == 0 && final(self)@ == old(self)@,
            },
    {
        self.events.pop_front()
    }

    /// The events that wait, oldest first; none is taken.
    pub fn iter(&self) -> (events: Vec<&E>)
        ensures
            events@.len() == self@.len(),
            forall|i: int| 0 <= i < self@.len() ==> *events@[i] == self@[i],
    {
        let mut events: Vec<&E> = Vec::new();
        let mut index: usize = 0;
        while index < self.events.len()
            invariant
                index <= self.events@.len(),
                events@.len() == index,
                forall|i: int| 0 <= i < index ==> *events@[i] == self.events@[i],
            decreases self.events@.len() - index,
        {
            events.push(&self.events[index]);
            index += 1;
        }
        events
    }
}

/// What the manager asks of a queue without knowing its event type.
pub trait EventQueueTrait {
    /// How many events wait.
    spec fn count(&self) -> nat;

    /// What tells the queues of one event type from those of another: the
    /// empty queue of this one's type, the type forgotten.
    spec fn kind(&self) -> Erased;

    /// The events that wait, oldest first, the type forgotten.
    spec fn erased_events(&self) -> Erased;

    /// This queue itself, its type forgotten.
    spec fn as_erased(&self) -> Erased;

    /// A reference to this queue, for a cast that gets the typed queue back.
    fn as_any(&self) -> (any: AnyRef<'_>)
        ensures
            any == any_ref_to(self.as_erased()),
    ;

    /// A mutable reference to this queue, for a cast that gets the typed
    /// queue back: the queue is afterwards what was written through it.
    fn as_any_mut(&mut self) -> (any: AnyMut<'_>)
        ensures
            any == any_mut_to(old(self).as_erased(), final(self).as_erased()),
    ;

    /// Drops every event that waits.
    fn clear(&mut self)
        ensures
            final(self).kind() == old(self).kind(),
            final(self).count() == 0,
            final(self).erased_events() == old(self).kind(),
    ;
}

impl<E: Event> EventQueueTrait for EventQueue<E> {
    open spec fn count(&self) -> nat {
        self@.len()
    }

    open spec fn kind(&self) -> Erased {
        erased(Seq::<E>::empty())
    }

    open spec fn erased_events(&self) -> Erased {
        erased(self@)
    }

    open spec fn as_erased(&self) -> Erased {
        erased(*self)
    }

    fn as_any(&self) -> (any: AnyRef<'_>) {
        AnyRef::of(self)
    }

    fn as_any_mut(&mut self) -> (any: AnyMut<'_>) {
        AnyMut::of(self)
    }

    fn clear(&mut self)
        ensures
            final(self)@ == Seq::<E>::empty(),
    {
        self.events.clear();
    }
}

/// One queue of the manager, its event type forgotten.
pub struct QueueSlot {
    queue: Box<dyn EventQueueTrait>,
}

impl QueueSlot {
    /// The slot is a queue of events of type `E`.
    pub closed spec fn is_of<E: Event>(&self) -> bool {
        self.queue.kind() == erased(Seq::<E>::empty())
    }

    /// How many events wait in this slot's queue.
    pub closed spec fn count(&self) -> nat {
        self.queue.count()
    }

    /// The slot is a queue of type `E` in which `events` wait.
    pub closed spec fn holds<E: Event>(&self, events: Seq<E>) -> bool {
        &&& self.is_of::<E>()
        &&& self.queue.count() == events.len()
        &&& self.queue.erased_events() == erased(events)
    }

    /// `events` wait in the slot and nothing else of type `E` does.
    pub closed spec fn holds_only<E: Event>(&self, events: Seq<E>) -> bool {
        &&& self.holds(events)
        &&& forall|other: Seq<E>| #[trigger] self.holds(other) ==> other == events
    }

    /// What waits in the slot is known exactly when it is read as a queue of
    /// `E`.
    pub closed spec fn is_exact<E: Event>(&self) -> bool {
        exists|events: Seq<E>| self.holds_only(events)
    }

    /// The events that wait in the slot, read as a queue of `E`.
    pub closed spec fn typed<E: Event>(&self) -> Seq<E> {
        if self.queue.count() == 0 {
            Seq::empty()
        } else {
            choose|events: Seq<E>| self.holds(events)
        }
    }

    /// This slot is what `before` becomes when it is cleared.
    pub closed spec fn is_cleared(&self, before: QueueSlot) -> bool {
        &&& self.queue.kind() == before.queue.kind()
        &&& self.queue.count() == 0
        &&& self.queue.erased_events() == before.queue.kind()
    }

    /// A queue of events of type `E` is no queue of a type that is told apart
    /// from `E`.
    pub proof fn lemma_one_kind<E: Event, F: Event>(&self)
        requires
            self.is_of::<E>(),
            are_distinct::<E, F>(),
        ensures
            !self.is_of::<F>(),
    {
    }

    /// A slot that holds exactly `events` reads back as `events`.
    pub proof fn lemma_typed<E: Event>(&self, events: Seq<E>)
        requires
            self.holds_only(events),
        ensures
            self.typed::<E>() == events,
            self.is_exact::<E>(),
            self.is_of::<E>(),
    {
        if self.queue.count() == 0 {
            assert(events =~= Seq::<E>::empty());
        }
    }

    /// A slot with an empty queue reads back as the empty sequence, exactly.
    pub proof fn lemma_typed_empty<E: Event>(&self)
        requires
            self.holds(Seq::<E>::empty()),
        ensures
            self.holds_only(Seq::<E>::empty()),
    {
        assert forall|other: Seq<E>| #[trigger] self.holds(other) implies other == Seq::<
            E,
        >::empty() by {
            assert(other =~= Seq::<E>::empty());
        }
    }

    /// Clearing keeps the slot's type and leaves nothing in it.
    pub proof fn lemma_cleared<E: Event>(&self, before: QueueSlot)
        requires
            self.is_cleared(before),
        ensures
            self.is_of::<E>() == before.is_of::<E>(),
            self.typed::<E>() == Seq::<E>::empty(),
            self.is_of::<E>() ==> self.is_exact::<E>(),
    {
        if self.is_of::<E>() {
            self.lemma_typed_empty::<E>();
        }
    }

    /// Puts a queue behind a slot.
    fn of<E: Event>(queue: EventQueue<E>) -> (slot: QueueSlot)
        ensures
            slot.holds(queue@),
    {
        QueueSlot { queue: Box::new(queue) }
    }

    /// `<dyn Any>::downcast_ref`, applied to what `as_any` hands out for the
    /// queue behind the slot. What is claimed of it:
    /// the cast succeeds exactly when the slot is a queue of `E` (a slot is
    /// only ever made by `of`, from a queue of some event type, and `Any`
    /// tells two types apart exactly when they differ); and the queue that
    /// comes back is the one behind the slot, so that what the slot says of
    /// itself without the type is what this queue says, and no other
    /// sequence of events of type `E` would look the same with the type
    /// forgotten.
    #[verifier::external_body]
    fn downcast<E: Event>(&self) -> (found: Option<&EventQueue<E>>)
        ensures
            match found {
                Some(queue) => self.holds_only(queue@),
                None => !self.is_of::<E>(),
            },
    {
        self.queue.as_any().target.downcast_ref::<EventQueue<E>>()
    }

    /// `<dyn Any>::downcast_mut`, applied to what `as_any_mut` hands out for
    /// the queue behind the slot. What is claimed of it is what is claimed
    /// of `downcast`, and further: the reference points into the slot, so
    /// what the queue is when the caller lets go of the reference is what
    /// the slot holds from then on; and where the cast fails the slot is
    /// left as it is.
    #[verifier::external_body]
    fn downcast_mut<E: Event>(&mut self) -> (found: Option<&mut EventQueue<E>>)
        ensures
            match found {
                Some(queue) => old(self).holds_only(queue@) && final(self).holds_only(final(queue)@),
                None => !old(self).is_of::<E>() && *final(self) == *old(self),
            },
    {
        self.queue.as_any_mut().target.downcast_mut::<EventQueue<E>>()
    }
}

/// For each of `slots`, whether it is a queue of `E`.
pub open spec fn kinds<E: Event>(slots: Seq<QueueSlot>) -> Seq<bool> {
    Seq::new(slots.len(), |j: int| slots[j].is_of::<E>())
}

/// Where the queue of `E` stands among `slots`, if there is one: the first
/// slot that is a queue of `E`.
pub open spec fn slot_of<E: Event>(slots: Seq<QueueSlot>) -> Option<int> {
    first_marked(kinds::<E>(slots))
}

/// The event types `E` and `F` are told apart: a queue of the one is no
/// queue of the other.
pub open spec fn are_distinct<E: Event, F: Event>() -> bool {
    erased(Seq::<E>::empty()) != erased(Seq::<F>::empty())
}

/// `after` is `before` with the slot at `index` written anew.
pub open spec fn is_rewritten_at(after: Seq<QueueSlot>, before: Seq<QueueSlot>, index: int) -> bool {
    &&& after.len() == before.len()
    &&& forall|j: int| 0 <= j < before.len() && j != index ==> #[trigger] after[j] == before[j]
}

/// Keeps one queue for each event type that was registered or used.
pub struct EventManager {
    queues: Vec<QueueSlot>,
}

impl View for EventManager {
    type V = Seq<QueueSlot>;

    closed spec fn view(&self) -> Seq<QueueSlot> {
        self.queues@
    }
}

impl EventManager {
    /// There is a queue for events of type `E`.
    pub open spec fn is_registered<E: Event>(&self) -> bool {
        slot_of::<E>(self@) is Some
    }

    /// The events of type `E` that wait, oldest first, if there is a queue
    /// for them.
    pub open spec fn queue<E: Event>(&self) -> Option<Seq<E>> {
        match slot_of::<E>(self@) {
            Some(index) => Some(self@[index].typed::<E>()),
            None => None,
        }
    }

    /// What waits in the queue of `E`, if there is one, is known exactly.
    /// Every operation that reads or writes the queue of `E` leaves this
    /// true, and so does clearing.
    pub open spec fn is_exact<E: Event>(&self) -> bool {
        match slot_of::<E>(self@) {
            Some(index) => self@[index].is_exact::<E>(),
            None => true,
        }
    }

    /// This manager is `before` but for the queue of `E`. Where `before` had
    /// one, it stands where it stood and every other queue is as it was;
    /// where it had none, one was put behind the others.
    pub open spec fn is_same_but<E: Event>(&self, before: EventManager) -> bool {
        match slot_of::<E>(before@) {
            Some(index) => slot_of::<E>(self@) == Some(index) && is_rewritten_at(
                self@,
                before@,
                index,
            ),
            None => self@ == before@ || (self@.len() == before@.len() + 1 && self@.drop_last()
                == before@ && self@.last().is_of::<E>()),
        }
    }

    /// This manager is what `before` becomes when every queue is cleared:
    /// the same queues, each empty.
    pub open spec fn is_cleared(&self, before: EventManager) -> bool {
        &&& self@.len() == before@.len()
        &&& forall|j: int| 0 <= j < self@.len() ==> (#[trigger] self@[j]).is_cleared(before@[j])
    }

    pub fn new() -> (manager: Self)
        ensures
            manager@.len() == 0,
    {
        Self { queues: Vec::new() }
    }

    /// Where the queue of `E` stands, found by asking each slot in turn.
    fn position<E: Event>(&self) -> (found: Option<usize>)
        ensures
            match found {
                Some(index) => slot_of::<E>(self@) == Some(index as int) && self@[index as int].is_exact::<E>(),
                None => slot_of::<E>(self@) is None,
            },
    {
        let mut index: usize = 0;
        while index < self.queues.len()
            invariant
                index <= self.queues@.len(),
                forall|j: int| 0 <= j < index ==> !(#[trigger] self.queues@[j]).is_of::<E>(),
            decreases self.queues@.len() - index,
        {
            if let Some(queue) = self.queues[index].downcast::<E>() {
                proof {
                    self.queues@[index as int].lemma_typed(queue@);
                    assert(is_first_marked(kinds::<E>(self@), index as int));
                    lemma_first_marked_is_unique(kinds::<E>(self@), index as int);
                }
                return Some(index);
            }
            index += 1;
        }
        proof {
            lemma_first_marked_exists(kinds::<E>(self@));
        }
        None
    }

    /// Makes an empty queue for events of type `E`, unless there is one.
    pub fn register<E: Event>(&mut self)
        ensures
            final(self).is_registered::<E>(),
            final(self).is_same_but::<E>(*old(self)),
            final(self).queue::<E>() == (match old(self).queue::<E>() {
                Some(events) => Some(events),
                None => Some(Seq::<E>::empty()),
            }),
            final(self).is_exact::<E>(),
            old(self).is_registered::<E>() ==> final(self)@ == old(self)@,
    {
        if self.position::<E>().is_none() {
            let slot = QueueSlot::of(EventQueue::<E>::new());
            self.queues.push(slot);
            proof {
                slot.lemma_typed_empty::<E>();
                slot.lemma_typed(Seq::<E>::empty());
                assert(kinds::<E>(self@) =~= kinds::<E>(old(self)@).push(true));
                lemma_first_marked_push(kinds::<E>(old(self)@), true);
                assert(self@.drop_last() =~= old(self)@);
            }
        }
    }

    /// The queue of `E`, if there is one.
    pub fn get_queue<E: Event>(&self) -> (found: Option<&EventQueue<E>>)
        ensures
            match found {
                Some(queue) => self.queue::<E>() == Some(queue@) && self.is_exact::<E>(),
                None => !self.is_registered::<E>(),
            },
    {
        match self.position::<E>() {
            Some(index) => {
                let found = self.queues[index].downcast::<E>();
                proof {
                    lemma_first_marked_exists(kinds::<E>(self@));
                    if let Some(queue) = found {
                        self.queues@[index as int].lemma_typed(queue@);
                    }
                }
                found
            },
            None => None,
        }
    }

    /// The queue of `E`, if there is one, to write to. The manager changes
    /// in that queue only, and only as far as the caller writes to it.
    pub fn get_queue_mut<E: Event>(&mut self) -> (found: Option<&mut EventQueue<E>>)
        ensures
            final(self).is_same_but::<E>(*old(self)),
            match found {
                Some(queue) => {
                    &&& old(self).queue::<E>() == Some(queue@)
                    &&& final(self).queue::<E>() == Some(final(queue)@)
                    &&& final(self).is_exact::<E>()
                },
                None => !old(self).is_registered::<E>() && final(self)@ == old(self)@,
            },
    {
        match self.position::<E>() {
            Some(index) => {
                proof {
                    let before = self@;
                    lemma_first_marked_exists(kinds::<E>(before));
                    assert forall|slot: QueueSlot, events: Seq<E>| #[trigger]
                        slot.holds_only(events) implies slot.typed::<E>() == events
                        && slot.is_exact::<E>() && slot.is_of::<E>() by {
                        slot.lemma_typed(events);
                    }
                    assert forall|after: Seq<QueueSlot>|
                        is_rewritten_at(after, before, index as int) && after[index as int].is_of::<
                            E,
                        >() implies #[trigger] slot_of::<E>(after) == Some(index as int) by {
                        assert(kinds::<E>(after) =~= kinds::<E>(before));
                    }
                }
                self.queues[index].downcast_mut::<E>()
            },
            None => None,
        }
    }

    /// Puts `event` behind the events of its type that wait; the queue is
    /// made first if there is none.
    pub fn push<E: Event>(&mut self, event: E)
        ensures
            final(self).is_same_but::<E>(*old(self)),
            final(self).queue::<E>() == Some(
                match old(self).queue::<E>() {
                    Some(events) => events.push(event),
                    None => Seq::<E>::empty().push(event),
                },
            ),
            final(self).is_exact::<E>(),
    {
        self.register::<E>();
        let ghost registered = *self;
        if let Some(queue) = self.get_queue_mut::<E>() {
            queue.push(event);
        }
        proof {
            lemma_same_but_twice::<E>(*self, registered, *old(self));
        }
    }

    /// Drops every event that waits, whatever its type. The queues stay.
    pub fn clear(&mut self)
        ensures
            final(self).is_cleared(*old(self)),
    {
        let mut index: usize = 0;
        while index < self.queues.len()
            invariant
                index <= self.queues@.len(),
                self.queues@.len() == old(self).queues@.len(),
                forall|j: int|
                    0 <= j < index ==> (#[trigger] self.queues@[j]).is_cleared(
                        old(self).queues@[j],
                    ),
                forall|j: int|
                    index <= j < self.queues@.len() ==> #[trigger] self.queues@[j] == old(
                        self,
                    ).queues@[j],
            decreases self.queues@.len() - index,
        {
            self.queues[index].queue.clear();
            index += 1;
        }
    }
}

/// A manager without queues has no queue of any type.
pub proof fn lemma_empty_has_no_queue<E: Event>(manager: EventManager)
    requires
        manager@.len() == 0,
    ensures
        !manager.is_registered::<E>(),
        manager.queue::<E>() is None,
{
    lemma_first_marked_exists(kinds::<E>(manager@));
}

/// Two changes to the queue of `E`, one after the other, are one change to
/// the queue of `E`.
pub proof fn lemma_same_but_twice<E: Event>(
    last: EventManager,
    middle: EventManager,
    first: EventManager,
)
    requires
        middle.is_same_but::<E>(first),
        last.is_same_but::<E>(middle),
    ensures
        last.is_same_but::<E>(first),
{
    lemma_first_marked_exists(kinds::<E>(first@));
    lemma_first_marked_exists(kinds::<E>(middle@));
    lemma_first_marked_exists(kinds::<E>(last@));
    match slot_of::<E>(first@) {
        Some(index) => {},
        None => {
            if middle@ != first@ {
                assert(kinds::<E>(middle@) =~= kinds::<E>(first@).push(true));
                lemma_first_marked_push(kinds::<E>(first@), true);
                assert(last@.drop_last() =~= first@);
            }
        },
    }
}

/// A change to the queue of `E` leaves the queue of `F` as it was, where the
/// two types are told apart, or where the one was new and the other was
/// there.
pub proof fn lemma_other_type_is_kept<E: Event, F: Event>(after: EventManager, before: EventManager)
    requires
        after.is_same_but::<E>(before),
        are_distinct::<E, F>() || (!before.is_registered::<E>() && before.is_registered::<F>()),
    ensures
        after.is_registered::<F>() == before.is_registered::<F>(),
        after.queue::<F>() == before.queue::<F>(),
        after.is_exact::<F>() == before.is_exact::<F>(),
{
    lemma_first_marked_exists(kinds::<E>(before@));
    lemma_first_marked_exists(kinds::<E>(after@));
    lemma_first_marked_exists(kinds::<F>(before@));
    lemma_first_marked_exists(kinds::<F>(after@));
    match slot_of::<E>(before@) {
        Some(index) => {
            before@[index].lemma_one_kind::<E, F>();
            after@[index].lemma_one_kind::<E, F>();
            assert(kinds::<F>(after@) =~= kinds::<F>(before@));
        },
        None => {
            if after@ != before@ {
                let mark = after@.last().is_of::<F>();
                if are_distinct::<E, F>() {
                    after@.last().lemma_one_kind::<E, F>();
                }
                assert(kinds::<F>(after@) =~= kinds::<F>(before@).push(mark));
                lemma_first_marked_push(kinds::<F>(before@), mark);
            }
        },
    }
}

/// What clearing does to the queue of any one type `E`: the queue stays
/// registered, and nothing waits in it.
pub proof fn lemma_clear_by_type<E: Event>(after: EventManager, before: EventManager)
    requires
        after.is_cleared(before),
    ensures
        after.is_registered::<E>() == before.is_registered::<E>(),
        after.is_registered::<E>() ==> after.queue::<E>() == Some(Seq::<E>::empty()),
        after.is_exact::<E>(),
{
    assert forall|j: int| 0 <= j < after@.len() implies (#[trigger] after@[j]).is_of::<E>()
        == before@[j].is_of::<E>() by {
        after@[j].lemma_cleared::<E>(before@[j]);
    }
    assert(kinds::<E>(after@) =~= kinds::<E>(before@));
    if let Some(index) = slot_of::<E>(after@) {
        lemma_first_marked_exists(kinds::<E>(after@));
        after@[index].lemma_cleared::<E>(before@[index]);
    }
}

} // verus!
