use vstd::prelude::*;

use crate::events::Message;
use crate::fanin::MessagePoll;

verus! {

/// A queue of messages for one consumer, delivered in the order sent, with a
/// note of whether the consumer is waiting to be woken and of whether the
/// producer has closed it.
#[derive(Debug)]
pub struct SyncMessageChannel<T> {
    messages: Vec<Message<T>>,
    waiting: bool,
    closed: bool,
}

impl<T> SyncMessageChannel<T> {
    /// The messages sent and not yet taken, oldest first.
    pub closed spec fn messages(&self) -> Seq<Message<T>> {
        self.messages@
    }

    /// Whether the consumer found the queue empty and has not been woken since.
    pub closed spec fn waiting(&self) -> bool {
        self.waiting
    }

    /// Whether the producer has closed the channel: once the queue is drained
    /// the stream has ended for good.
    pub closed spec fn is_closed(&self) -> bool {
        self.closed
    }

    pub fn init() -> (r: SyncMessageChannel<T>)
        ensures
            r.messages() == Seq::<Message<T>>::empty(),
            !r.waiting(),
            !r.is_closed(),
    {
        SyncMessageChannel { messages: Vec::new(), waiting: false, closed: false }
    }

    /// Queues `message`; returns whether the consumer is waiting and must be woken.
    pub fn send(&mut self, message: Message<T>) -> (r: bool)
        ensures
            final(self).messages() == old(self).messages().push(message),
            r == old(self).waiting(),
            !final(self).waiting(),
            final(self).is_closed() == old(self).is_closed(),
    {
        self.messages.push(message);
        let wake = self.waiting;
        self.waiting = false;
        wake
    }

    /// Closes the channel (the producer has gone, a pin was released); returns
    /// whether the consumer is waiting and must be woken to see the end.
    pub fn close(&mut self) -> (r: bool)
        ensures
            final(self).messages() == old(self).messages(),
            final(self).is_closed(),
            r == old(self).waiting(),
            !final(self).waiting(),
    {
        self.closed = true;
        let wake = self.waiting;
        self.waiting = false;
        wake
    }

    /// Takes the oldest message; when there is none, reports the end if the
    /// channel is closed, and otherwise notes that the consumer waits.
    pub fn take(&mut self) -> (r: MessagePoll<T>)
        ensures
            final(self).is_closed() == old(self).is_closed(),
            old(self).messages().len() > 0 ==> r == MessagePoll::Ready(old(self).messages()[0])
                && final(self).messages() == old(self).messages().drop_first()
                && final(self).waiting() == old(self).waiting(),
            old(self).messages().len() == 0 && old(self).is_closed() ==> r is Ended
                && final(self).messages() == old(self).messages() && !final(self).waiting(),
            old(self).messages().len() == 0 && !old(self).is_closed() ==> r is Pending
                && final(self).messages() == old(self).messages() && final(self).waiting(),
    {
        if self.messages.len() == 0 {
            if self.closed {
                self.waiting = false;
                MessagePoll::Ended
            } else {
                self.waiting = true;
                MessagePoll::Pending
            }
        } else {
            let m = self.messages.remove(0);
            proof {
                assert(self.messages@ =~= old(self).messages@.drop_first());
            }
            MessagePoll::Ready(m)
        }
    }
}

/// One listener's queue in the broadcaster.
#[derive(Debug)]
pub struct Listener<T> {
    pub id: u64,
    pub channel: SyncMessageChannel<T>,
}

/// Broadcasts each message to every registered listener; listeners come and go
/// at any time without disturbing the others, and a slow one never holds up
/// the sender.
#[derive(Debug)]
pub struct MessageSender<T> {
    listeners: Vec<Listener<T>>,
    next_id: u64,
}

/// The ids whose flag in `waiting` is set, in order.
pub open spec fn waiting_ids(ids: Seq<u64>, waiting: Seq<bool>) -> Seq<u64>
    decreases ids.len(),
{
    if ids.len() == 0 {
        Seq::empty()
    } else {
        let rest = waiting_ids(ids.drop_last(), waiting.drop_last());
        if waiting.last() {
            rest.push(ids.last())
        } else {
            rest
        }
    }
}

/// `c` is a copy of `m` as `clone` makes it.
pub open spec fn copy_of<T: Clone>(m: Message<T>, c: Message<T>) -> bool {
    c.instant == m.instant && cloned(m.payload, c.payload)
}

impl<T: Clone> MessageSender<T> {
    /// The listeners' ids, in order of registration.
    pub closed spec fn ids(&self) -> Seq<u64> {
        self.listeners@.map_values(|l: Listener<T>| l.id)
    }

    /// The messages waiting for each listener, in the order of `ids`.
    pub closed spec fn queues(&self) -> Seq<Seq<Message<T>>> {
        self.listeners@.map_values(|l: Listener<T>| l.channel.messages())
    }

    /// Whether each listener, in the order of `ids`, is waiting to be woken.
    pub closed spec fn waitings(&self) -> Seq<bool> {
        self.listeners@.map_values(|l: Listener<T>| l.channel.waiting())
    }

    pub closed spec fn next_id(&self) -> u64 {
        self.next_id
    }

    /// No listener's channel is closed: listeners leave only by `remove`.
    pub closed spec fn channels_open(&self) -> bool {
        forall|i: int| 0 <= i < self.listeners@.len() ==> !(#[trigger] self.listeners@[i]).channel.is_closed()
    }

    /// Ids are distinct and below the next id to hand out.
    pub open spec fn wf(&self) -> bool {
        &&& self.channels_open()
        &&& forall|i: int, j: int|
            0 <= i < j < self.ids().len() ==> #[trigger] self.ids()[i] != #[trigger] self.ids()[j]
        &&& forall|i: int| 0 <= i < self.ids().len() ==> #[trigger] self.ids()[i] < self.next_id()
    }

    pub fn new() -> (r: MessageSender<T>)
        ensures
            r.wf(),
            r.ids() == Seq::<u64>::empty(),
            r.queues() == Seq::<Seq<Message<T>>>::empty(),
            r.waitings() == Seq::<bool>::empty(),
            r.next_id() == 0,
    {
        let r = MessageSender { listeners: Vec::new(), next_id: 0 };
        assert(r.ids() =~= Seq::<u64>::empty());
        assert(r.waitings() =~= Seq::<bool>::empty());
        assert(r.queues() =~= Seq::<Seq<Message<T>>>::empty());
        r
    }

    /// Whether another listener can still be given an id of its own.
    pub fn can_add_listener(&self) -> (r: bool)
        ensures
            r == (self.next_id() < u64::MAX),
    {
        self.next_id < u64::MAX
    }

    /// Registers a new listener, which receives every message sent from now on.
    /// Returns its id.
    pub fn receiver(&mut self) -> (r: u64)
        requires
            old(self).wf(),
            old(self).next_id() < u64::MAX,
        ensures
            final(self).wf(),
            r == old(self).next_id(),
            final(self).next_id() == old(self).next_id() + 1,
            final(self).ids() == old(self).ids().push(r),
            final(self).queues() == old(self).queues().push(Seq::<Message<T>>::empty()),
            final(self).waitings() == old(self).waitings().push(false),
    {
        let id = self.next_id;
        self.listeners.push(Listener { id, channel: SyncMessageChannel::init() });
        self.next_id = id + 1;
        assert(self.ids() =~= old(self).ids().push(id));
        assert(self.waitings() =~= old(self).waitings().push(false));
        assert(self.queues() =~= old(self).queues().push(Seq::<Message<T>>::empty()));
        id
    }

    /// The position of the listener with id `id`, if it is registered.
    fn position(&self, id: u64) -> (r: Option<usize>)
        requires
            self.wf(),
        ensures
            r matches Some(i) ==> i < self.ids().len() && self.ids()[i as int] == id,
            r is None ==> !self.ids().contains(id),
    {
        let n = self.listeners.len();
        let mut i: usize = 0;
        while i < n
            invariant
                n == self.listeners@.len(),
                n == self.ids().len(),
                0 <= i <= n,
                forall|j: int| 0 <= j < i ==> #[trigger] self.ids()[j] != id,
            decreases n - i,
        {
            if self.listeners[i].id == id {
                return Some(i);
            }
            i = i + 1;
        }
        None
    }

    /// Takes the oldest message waiting for listener `id`; `None` when it has
    /// none (the listener is then noted as waiting) or is not registered.
    pub fn take(&mut self, id: u64) -> (r: Option<Message<T>>)
        requires
            old(self).wf(),
        ensures
            final(self).wf(),
            final(self).ids() == old(self).ids(),
            final(self).next_id() == old(self).next_id(),
            forall|i: int|
                0 <= i < old(self).ids().len() && old(self).ids()[i] != id ==> #[trigger] final(self).queues()[i] == old(self).queues()[i]
                    && final(self).waitings()[i] == old(self).waitings()[i],
            forall|i: int|
                0 <= i < old(self).ids().len() && #[trigger] old(self).ids()[i] == id ==> {
                    &&& old(self).queues()[i].len() == 0 ==> r is None && final(self).queues()[i]
                        == old(self).queues()[i] && final(self).waitings()[i]
                    &&& old(self).queues()[i].len() > 0 ==> r == Some(old(self).queues()[i][0])
                        && final(self).queues()[i] == old(self).queues()[i].drop_first()
                        && final(self).waitings()[i] == old(self).waitings()[i]
                },
            final(self).queues().len() == old(self).queues().len(),
            final(self).waitings().len() == old(self).waitings().len(),
            !old(self).ids().contains(id) ==> r is None && final(self).queues() == old(self).queues()
                && final(self).waitings() == old(self).waitings(),
    {
        match self.position(id) {
            Some(i) => {
                let ghost before_ids = self.ids();
                let ghost before = self.queues();
                let ghost before_w = self.waitings();
                let ghost before_l = self.listeners@;
                let mut l = self.listeners.remove(i);
                let polled = l.channel.take();
                let ghost q = l.channel.messages();
                let ghost w = l.channel.waiting();
                let ghost l_after = l;
                self.listeners.insert(i, l);
                let r = match polled {
                    MessagePoll::Ready(m) => Some(m),
                    _ => None,
                };
                proof {
                    assert(self.listeners@ =~= before_l.update(i as int, l_after));
                    assert(self.ids() =~= before_ids);
                    assert(self.queues() =~= before.update(i as int, q));
                    assert(self.waitings() =~= before_w.update(i as int, w));
                    assert(!before_l[i as int].channel.is_closed());
                    assert(self.channels_open());
                    assert forall|j: int|
                        0 <= j < before_ids.len() && #[trigger] before_ids[j] == id implies j
                        == i by {}
                }
                r
            },
            None => {
                proof {
                    assert forall|j: int|
                        0 <= j < old(self).ids().len() implies #[trigger] old(self).ids()[j] != id by {
                        if old(self).ids()[j] == id {
                            assert(old(self).ids().contains(id));
                        }
                    }
                }
                None
            },
        }
    }

    /// Unregisters listener `id` and discards what was waiting for it; the
    /// others are not touched.
    pub fn remove(&mut self, id: u64)
        requires
            old(self).wf(),
        ensures
            final(self).wf(),
            final(self).next_id() == old(self).next_id(),
            !final(self).ids().contains(id),
            old(self).ids().contains(id) ==> exists|i: int|
                0 <= i < old(self).ids().len() && #[trigger] old(self).ids()[i] == id
                    && final(self).ids() == old(self).ids().remove(i) && final(self).queues()
                    == old(self).queues().remove(i) && final(self).waitings() == old(self).waitings().remove(i),
            !old(self).ids().contains(id) ==> final(self).ids() == old(self).ids() && final(self).queues()
                == old(self).queues() && final(self).waitings() == old(self).waitings(),
    {
        match self.position(id) {
            Some(i) => {
                let ghost before_ids = self.ids();
                let ghost before = self.queues();
                let ghost before_w = self.waitings();
                let ghost before_l = self.listeners@;
                let _ = self.listeners.remove(i);
                proof {
                    assert(self.ids() =~= before_ids.remove(i as int));
                    assert(self.queues() =~= before.remove(i as int));
                    assert(self.waitings() =~= before_w.remove(i as int));
                    assert forall|a: int| 0 <= a < self.listeners@.len() implies !(
                    #[trigger] self.listeners@[a]).channel.is_closed() by {
                        let a2 = if a < i { a } else { a + 1 };
                        assert(self.listeners@[a] == before_l[a2]);
                    }
                    if self.ids().contains(id) {
                        let k = choose|k: int| 0 <= k < self.ids().len() && self.ids()[k] == id;
                        if k < i {
                            assert(before_ids[k] == id);
                        } else {
                            assert(before_ids[k + 1] == id);
                        }
                    }
                    assert forall|a: int, b: int|
                        0 <= a < b < self.ids().len() implies #[trigger] self.ids()[a]
                        != #[trigger] self.ids()[b] by {
                        let a2 = if a < i { a } else { a + 1 };
                        let b2 = if b < i { b } else { b + 1 };
                        assert(self.ids()[a] == before_ids[a2]);
                        assert(self.ids()[b] == before_ids[b2]);
                    }
                    assert forall|a: int| 0 <= a < self.ids().len() implies #[trigger] self.ids()[a]
                        < self.next_id() by {
                        let a2 = if a < i { a } else { a + 1 };
                        assert(self.ids()[a] == before_ids[a2]);
                    }
                }
            },
            None => {},
        }
    }

    /// Appends a copy of `message` to every listener's queue. Returns the ids
    /// of the listeners that were waiting and must be woken, in order; none is
    /// left waiting.
    pub fn send(&mut self, message: Message<T>) -> (r: Vec<u64>)
        requires
            old(self).wf(),
        ensures
            final(self).wf(),
            r@ == waiting_ids(old(self).ids(), old(self).waitings()),
            final(self).waitings().len() == old(self).waitings().len(),
            forall|i: int| 0 <= i < final(self).waitings().len() ==> !#[trigger] final(self).waitings()[i],
            final(self).ids() == old(self).ids(),
            final(self).next_id() == old(self).next_id(),
            final(self).queues().len() == old(self).queues().len(),
            forall|i: int|
                0 <= i < old(self).queues().len() ==> {
                    &&& (#[trigger] final(self).queues()[i]).len() == old(self).queues()[i].len() + 1
                    &&& final(self).queues()[i].drop_last() == old(self).queues()[i]
                    &&& copy_of(message, final(self).queues()[i].last())
                },
    {
        let n = self.listeners.len();
        let mut wake: Vec<u64> = Vec::new();
        let mut i: usize = 0;
        proof {
            assert(old(self).ids().take(0) =~= Seq::<u64>::empty());
        }
        while i < n
            invariant
                n == self.listeners@.len(),
                0 <= i <= n,
                old(self).wf(),
                self.channels_open(),
                self.ids() == old(self).ids(),
                self.next_id == old(self).next_id,
                wake@ == waiting_ids(old(self).ids().take(i as int), old(self).waitings().take(i as int)),
                self.waitings().len() == n,
                old(self).waitings().len() == n,
                forall|j: int| 0 <= j < i ==> !#[trigger] self.waitings()[j],
                forall|j: int| i <= j < n ==> #[trigger] self.waitings()[j] == old(self).waitings()[j],
                self.queues().len() == n,
                old(self).queues().len() == n,
                forall|j: int|
                    0 <= j < i ==> {
                        &&& (#[trigger] self.queues()[j]).len() == old(self).queues()[j].len() + 1
                        &&& self.queues()[j].drop_last() == old(self).queues()[j]
                        &&& copy_of(message, self.queues()[j].last())
                    },
                forall|j: int| i <= j < n ==> #[trigger] self.queues()[j] == old(self).queues()[j],
            decreases n - i,
        {
            let copy = message.clone();
            let ghost before_ids = self.ids();
            let ghost before = self.queues();
            let ghost before_w = self.waitings();
            let ghost before_l = self.listeners@;
            let mut l = self.listeners.remove(i);
            let id = l.id;
            let was_waiting = l.channel.send(copy);
            let ghost l_after = l;
            self.listeners.insert(i, l);
            if was_waiting {
                wake.push(id);
            }
            proof {
                assert(self.listeners@ =~= before_l.update(i as int, l_after));
                assert(self.ids() =~= before_ids);
                assert(self.queues() =~= before.update(i as int, before[i as int].push(copy)));
                assert(self.waitings() =~= before_w.update(i as int, false));
                assert(self.queues()[i as int].drop_last() =~= before[i as int]);
                let ids_i = old(self).ids().take(i as int + 1);
                let w_i = old(self).waitings().take(i as int + 1);
                assert(ids_i.drop_last() =~= old(self).ids().take(i as int));
                assert(w_i.drop_last() =~= old(self).waitings().take(i as int));
                assert(ids_i.last() == id);
                assert(before_w[i as int] == before_l[i as int].channel.waiting());
                assert(old(self).waitings()[i as int] == before_w[i as int]);
                assert(w_i.last() == was_waiting);
                assert(!before_l[i as int].channel.is_closed());
            }
            i = i + 1;
        }
        proof {
            assert(old(self).ids().take(n as int) =~= old(self).ids());
            assert(old(self).waitings().take(n as int) =~= old(self).waitings());
        }
        wake
    }
}

} // verus!
