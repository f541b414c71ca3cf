use vstd::prelude::*;

use crate::events::Message;

verus! {

/// One source registered with the multiplexer: the messages it has sent and
/// not yet handed out, in the order sent, and whether it has ended.
#[derive(Debug)]
pub struct Source<T> {
    pub key: u64,
    pub queue: Vec<Message<T>>,
    pub closed: bool,
}

impl<T> View for Source<T> {
    type V = (u64, Seq<Message<T>>, bool);

    open spec fn view(&self) -> (u64, Seq<Message<T>>, bool) {
        (self.key, self.queue@, self.closed)
    }
}

/// What one poll of a message source gives.
#[derive(Debug)]
pub enum MessagePoll<T> {
    /// The next message.
    Ready(Message<T>),
    /// Nothing yet: the consumer waits for a wake-up.
    Pending,
    /// Nothing more will come.
    Ended,
}

/// A source that has ended and has nothing left to hand out.
pub open spec fn exhausted<T>(s: (u64, Seq<Message<T>>, bool)) -> bool {
    s.2 && s.1.len() == 0
}

/// The sources that are not exhausted, in their order.
pub open spec fn live<T>(s: Seq<(u64, Seq<Message<T>>, bool)>) -> Seq<(u64, Seq<Message<T>>, bool)>
    decreases s.len(),
{
    if s.len() == 0 {
        s
    } else if exhausted(s.last()) {
        live(s.drop_last())
    } else {
        live(s.drop_last()).push(s.last())
    }
}

/// The index of the first source with a message, or the number of sources.
pub open spec fn first_ready<T>(s: Seq<(u64, Seq<Message<T>>, bool)>) -> int
    decreases s.len(),
{
    if s.len() == 0 {
        0
    } else if s[0].1.len() > 0 {
        0
    } else {
        1 + first_ready(s.drop_first())
    }
}

/// One poll, over the sources in visiting order: each is visited once, from the
/// front; one that is waiting goes to the back, one that is exhausted is
/// dropped, and the first one with a message hands it out and goes to the back.
/// Returns the new order and the message, if any.
pub open spec fn poll_step<T>(s: Seq<(u64, Seq<Message<T>>, bool)>) -> (
    Seq<(u64, Seq<Message<T>>, bool)>,
    Option<Message<T>>,
) {
    let i = first_ready(s);
    if i < s.len() {
        let src = s[i];
        (
            s.subrange(i + 1, s.len() as int) + live(s.take(i)).push(
                (src.0, src.1.drop_first(), src.2),
            ),
            Some(src.1[0]),
        )
    } else {
        (live(s), None)
    }
}

/// No two sources share a key.
pub open spec fn distinct_keys<T>(s: Seq<(u64, Seq<Message<T>>, bool)>) -> bool {
    forall|i: int, j: int| 0 <= i < j < s.len() ==> #[trigger] s[i].0 != #[trigger] s[j].0
}

/// Every key is below `bound`.
pub open spec fn keys_below<T>(s: Seq<(u64, Seq<Message<T>>, bool)>, bound: u64) -> bool {
    forall|i: int| 0 <= i < s.len() ==> #[trigger] s[i].0 < bound
}

proof fn lemma_live<T>(s: Seq<(u64, Seq<Message<T>>, bool)>)
    requires
        distinct_keys(s),
    ensures
        distinct_keys(live(s)),
        live(s).len() <= s.len(),
        forall|i: int|
            0 <= i < live(s).len() ==> exists|j: int| 0 <= j < s.len() && #[trigger] live(s)[i] == s[j],
    decreases s.len(),
{
    if s.len() > 0 {
        let p = s.drop_last();
        assert(distinct_keys(p));
        lemma_live(p);
        if !exhausted(s.last()) {
            let l = live(p);
            assert forall|i: int| 0 <= i < l.len() implies #[trigger] l[i].0 != s.last().0 by {
                let j = choose|j: int| 0 <= j < p.len() && l[i] == p[j];
                assert(s[j] == p[j]);
            }
            assert forall|i: int| 0 <= i < live(s).len() implies exists|j: int|
                0 <= j < s.len() && #[trigger] live(s)[i] == s[j] by {
                if i < l.len() {
                    let j = choose|j: int| 0 <= j < p.len() && l[i] == p[j];
                    assert(s[j] == p[j]);
                } else {
                    assert(live(s)[i] == s[s.len() - 1]);
                }
            }
        } else {
            assert forall|i: int| 0 <= i < live(s).len() implies exists|j: int|
                0 <= j < s.len() && #[trigger] live(s)[i] == s[j] by {
                let j = choose|j: int| 0 <= j < p.len() && live(p)[i] == p[j];
                assert(s[j] == p[j]);
            }
        }
    }
}

/// Rotating the first `k` sources (none of which had a message) past the
/// others, dropping the exhausted ones, keeps the keys distinct and bounded.
proof fn lemma_rotate_wf<T>(s: Seq<(u64, Seq<Message<T>>, bool)>, k: int, bound: u64)
    requires
        distinct_keys(s),
        keys_below(s, bound),
        0 <= k <= s.len(),
    ensures
        distinct_keys(s.subrange(k, s.len() as int) + live(s.take(k))),
        keys_below(s.subrange(k, s.len() as int) + live(s.take(k)), bound),
{
    let a = s.subrange(k, s.len() as int);
    let t = s.take(k);
    assert(distinct_keys(t));
    lemma_live(t);
    let b = live(t);
    let c = a + b;
    assert forall|i: int, j: int| 0 <= i < j < c.len() implies #[trigger] c[i].0 != #[trigger] c[j].0 by {
        if j < a.len() {
            assert(c[i] == s[k + i] && c[j] == s[k + j]);
        } else if i < a.len() {
            let jj = choose|jj: int| 0 <= jj < t.len() && b[j - a.len()] == t[jj];
            assert(c[j] == s[jj]);
            assert(c[i] == s[k + i]);
        } else {
            assert(c[i] == b[i - a.len()] && c[j] == b[j - a.len()]);
        }
    }
    assert forall|i: int| 0 <= i < c.len() implies #[trigger] c[i].0 < bound by {
        if i < a.len() {
            assert(c[i] == s[k + i]);
        } else {
            let jj = choose|jj: int| 0 <= jj < t.len() && b[i - a.len()] == t[jj];
            assert(c[i] == s[jj]);
        }
    }
}

proof fn lemma_first_ready<T>(s: Seq<(u64, Seq<Message<T>>, bool)>, k: int)
    requires
        0 <= k <= s.len(),
        forall|j: int| 0 <= j < k ==> (#[trigger] s[j]).1.len() == 0,
        k < s.len() ==> s[k].1.len() > 0,
    ensures
        first_ready(s) == k,
    decreases k,
{
    if k > 0 {
        let t = s.drop_first();
        assert forall|j: int| 0 <= j < k - 1 implies (#[trigger] t[j]).1.len() == 0 by {
            assert(t[j] == s[j + 1]);
        }
        lemma_first_ready(t, k - 1);
    }
}

/// The sources after `m` polls with nothing sent in between.
pub open spec fn poll_iter<T>(s: Seq<(u64, Seq<Message<T>>, bool)>, m: nat) -> Seq<
    (u64, Seq<Message<T>>, bool),
>
    decreases m,
{
    if m == 0 {
        s
    } else {
        poll_iter(poll_step(s).0, (m - 1) as nat)
    }
}

proof fn lemma_first_ready_bounds<T>(s: Seq<(u64, Seq<Message<T>>, bool)>)
    ensures
        0 <= first_ready(s) <= s.len(),
        forall|k: int| 0 <= k < first_ready(s) ==> (#[trigger] s[k]).1.len() == 0,
        first_ready(s) < s.len() ==> s[first_ready(s)].1.len() > 0,
    decreases s.len(),
{
    if s.len() > 0 && s[0].1.len() == 0 {
        let t = s.drop_first();
        lemma_first_ready_bounds(t);
        assert forall|k: int| 0 <= k < first_ready(s) implies (#[trigger] s[k]).1.len() == 0 by {
            if k > 0 {
                assert(s[k] == t[k - 1]);
            }
        }
    }
}

proof fn lemma_live_keeps<T>(s: Seq<(u64, Seq<Message<T>>, bool)>, j: int)
    requires
        0 <= j < s.len(),
        !exhausted(s[j]),
    ensures
        live(s).contains(s[j]),
    decreases s.len(),
{
    if j == s.len() - 1 {
        assert(live(s).last() == s[j]);
    } else {
        let p = s.drop_last();
        assert(p[j] == s[j]);
        lemma_live_keeps(p, j);
        let w = choose|w: int| 0 <= w < live(p).len() && live(p)[w] == s[j];
        if !exhausted(s.last()) {
            assert(live(s)[w] == s[j]);
        }
    }
}

/// No starvation: a source that has a message is served within as many polls
/// as there are sources ahead of it, whatever the others do meanwhile (they
/// may all keep waiting): the poll that serves it hands out its first message.
pub proof fn lemma_ready_source_served<T>(s: Seq<(u64, Seq<Message<T>>, bool)>, j: int)
    requires
        0 <= j < s.len(),
        s[j].1.len() > 0,
    ensures
        exists|m: nat|
            m <= j && #[trigger] poll_step(poll_iter(s, m)).1 == Some(s[j].1[0]) && poll_iter(
                s,
                m,
            )[first_ready(poll_iter(s, m))] == s[j],
    decreases j,
{
    lemma_first_ready_bounds(s);
    let i = first_ready(s);
    assert(i <= j);
    if i == j {
        assert(poll_iter(s, 0) == s);
        assert(poll_step(poll_iter(s, 0)).1 == Some(s[j].1[0]));
    } else {
        let t = poll_step(s).0;
        let j2 = j - i - 1;
        assert(t[j2] == s[j]);
        lemma_ready_source_served(t, j2);
        let m2 = choose|m2: nat|
            m2 <= j2 && #[trigger] poll_step(poll_iter(t, m2)).1 == Some(t[j2].1[0]) && poll_iter(
                t,
                m2,
            )[first_ready(poll_iter(t, m2))] == t[j2];
        assert(poll_iter(s, m2 + 1) == poll_iter(t, m2));
        assert(poll_step(poll_iter(s, (m2 + 1) as nat)).1 == Some(s[j].1[0]));
    }
}

/// A source added in front of the others (as `MessageReceiver::sender` does)
/// is visited by the very next poll: a message it has sent by then is the one
/// handed out, and while it has sent none it stays registered, so the poll
/// does not report the end.
pub proof fn lemma_added_source_visited<T>(
    s: Seq<(u64, Seq<Message<T>>, bool)>,
    key: u64,
    m: Message<T>,
)
    ensures
        poll_step(seq![(key, seq![m], false)] + s).1 == Some(m),
        poll_step(seq![(key, Seq::<Message<T>>::empty(), false)] + s).0.contains(
            (key, Seq::<Message<T>>::empty(), false),
        ),
        poll_step(seq![(key, Seq::<Message<T>>::empty(), false)] + s).0.len() > 0,
{
    let fresh = (key, Seq::<Message<T>>::empty(), false);
    let t1 = seq![(key, seq![m], false)] + s;
    assert(t1[0].1.len() > 0);
    assert(first_ready(t1) == 0);
    let t = seq![fresh] + s;
    lemma_first_ready_bounds(t);
    let i = first_ready(t);
    assert(t[0] == fresh);
    if i < t.len() {
        assert(i > 0);
        assert(t.take(i)[0] == fresh);
        lemma_live_keeps(t.take(i), 0);
        let o = poll_step(t).0;
        let a = t.subrange(i + 1, t.len() as int);
        let w = choose|w: int| 0 <= w < live(t.take(i)).len() && live(t.take(i))[w] == fresh;
        assert(o[a.len() + w] == fresh);
    } else {
        lemma_live_keeps(t, 0);
    }
}

/// Merges any number of sources, added at any time, into one sequence of
/// messages, visiting them in rotation so that none is starved.
#[derive(Debug)]
pub struct MessageReceiver<T> {
    sources: Vec<Source<T>>,
    next_key: u64,
    waiting: bool,
}

impl<T> MessageReceiver<T> {
    /// The registered sources in visiting order.
    pub closed spec fn sources(&self) -> Seq<(u64, Seq<Message<T>>, bool)> {
        self.sources@.map_values(|s: Source<T>| s@)
    }

    /// Whether the last poll found every source waiting and nothing has woken
    /// it since.
    pub closed spec fn waiting(&self) -> bool {
        self.waiting
    }

    /// The key the next source will get.
    pub closed spec fn next_key(&self) -> u64 {
        self.next_key
    }

    /// Keys are distinct and below the next key to hand out.
    pub open spec fn wf(&self) -> bool {
        &&& distinct_keys(self.sources())
        &&& keys_below(self.sources(), self.next_key())
    }

    pub fn new() -> (r: MessageReceiver<T>)
        ensures
            r.wf(),
            r.sources() == Seq::<(u64, Seq<Message<T>>, bool)>::empty(),
            !r.waiting(),
            r.next_key() == 0,
    {
        let r = MessageReceiver { sources: Vec::new(), next_key: 0, waiting: false };
        assert(r.sources() =~= Seq::<(u64, Seq<Message<T>>, bool)>::empty());
        r
    }

    /// Registers a new source, to be visited first by the next poll. Returns
    /// its key, and whether a poll is waiting and must be woken.
    pub fn sender(&mut self) -> (r: (u64, bool))
        requires
            old(self).wf(),
            old(self).next_key() < u64::MAX,
        ensures
            final(self).wf(),
            r.0 == old(self).next_key(),
            final(self).next_key() == old(self).next_key() + 1,
            final(self).sources() == seq![(r.0, Seq::<Message<T>>::empty(), false)] + old(self).sources(),
            r.1 == old(self).waiting(),
            !final(self).waiting(),
    {
        let key = self.next_key;
        self.sources.insert(0, Source { key, queue: Vec::new(), closed: false });
        self.next_key = key + 1;
        let wake = self.waiting;
        self.waiting = false;
        assert(self.sources() =~= seq![(key, Seq::<Message<T>>::empty(), false)] + old(self).sources());
        (key, wake)
    }

    /// Appends `message` to the source with key `key` (nothing happens when no
    /// source has it). Returns whether a poll is waiting and must be woken.
    pub fn push(&mut self, key: u64, message: Message<T>) -> (r: bool)
        requires
            old(self).wf(),
        ensures
            final(self).wf(),
            final(self).next_key() == old(self).next_key(),
            final(self).sources().len() == old(self).sources().len(),
            forall|i: int|
                0 <= i < old(self).sources().len() ==> #[trigger] final(self).sources()[i] == if old(self).sources()[i].0 == key {
                    (key, old(self).sources()[i].1.push(message), old(self).sources()[i].2)
                } else {
                    old(self).sources()[i]
                },
            r == (old(self).waiting() && exists|i: int|
                0 <= i < old(self).sources().len() && #[trigger] old(self).sources()[i].0 == key),
            final(self).waiting() == (old(self).waiting() && !r),
    {
        let n = self.sources.len();
        let mut i: usize = 0;
        while i < n
            invariant
                n == self.sources@.len(),
                0 <= i <= n,
                forall|j: int| 0 <= j < i ==> #[trigger] self.sources@[j].key != key,
                *self == *old(self),
                old(self).wf(),
            decreases n - i,
        {
            if self.sources[i].key == key {
                let mut src = self.sources.remove(i);
                src.queue.push(message);
                self.sources.insert(i, src);
                assert(self.sources@ =~= old(self).sources@.update(i as int, src));
                assert(self.sources() =~= old(self).sources().update(i as int, src@));
                let wake = self.waiting;
                self.waiting = false;
                proof {
                    assert forall|j: int| 0 <= j < old(self).sources().len() implies #[trigger] self.sources()[j] == if old(self).sources()[j].0 == key {
                        (key, old(self).sources()[j].1.push(message), old(self).sources()[j].2)
                    } else {
                        old(self).sources()[j]
                    } by {
                        if j != i {
                            assert(old(self).sources()[j].0 != old(self).sources()[i as int].0);
                        }
                    }
                    assert(old(self).sources()[i as int].0 == key);
                }
                return wake;
            }
            i = i + 1;
        }
        false
    }

    /// Marks the source with key `key` as ended: once its queue is empty it is
    /// dropped. Returns whether a poll is waiting and must be woken.
    pub fn close(&mut self, key: u64) -> (r: bool)
        requires
            old(self).wf(),
        ensures
            final(self).wf(),
            final(self).next_key() == old(self).next_key(),
            final(self).sources().len() == old(self).sources().len(),
            forall|i: int|
                0 <= i < old(self).sources().len() ==> #[trigger] final(self).sources()[i] == if old(self).sources()[i].0 == key {
                    (key, old(self).sources()[i].1, true)
                } else {
                    old(self).sources()[i]
                },
            r == (old(self).waiting() && exists|i: int|
                0 <= i < old(self).sources().len() && #[trigger] old(self).sources()[i].0 == key),
            final(self).waiting() == (old(self).waiting() && !r),
    {
        let n = self.sources.len();
        let mut i: usize = 0;
        while i < n
            invariant
                n == self.sources@.len(),
                0 <= i <= n,
                forall|j: int| 0 <= j < i ==> #[trigger] self.sources@[j].key != key,
                *self == *old(self),
                old(self).wf(),
            decreases n - i,
        {
            if self.sources[i].key == key {
                let mut src = self.sources.remove(i);
                src.closed = true;
                self.sources.insert(i, src);
                assert(self.sources@ =~= old(self).sources@.update(i as int, src));
                assert(self.sources() =~= old(self).sources().update(i as int, src@));
                let wake = self.waiting;
                self.waiting = false;
                proof {
                    assert forall|j: int| 0 <= j < old(self).sources().len() implies #[trigger] self.sources()[j] == if old(self).sources()[j].0 == key {
                        (key, old(self).sources()[j].1, true)
                    } else {
                        old(self).sources()[j]
                    } by {
                        if j != i {
                            assert(old(self).sources()[j].0 != old(self).sources()[i as int].0);
                        }
                    }
                    assert(old(self).sources()[i as int].0 == key);
                }
                return wake;
            }
            i = i + 1;
        }
        false
    }

    /// Visits each source at most once, in rotation, and hands out the first
    /// message found; reports `Pending` when every source waits, and `Ended`
    /// when none is left.
    pub fn poll_next(&mut self) -> (r: MessagePoll<T>)
        requires
            old(self).wf(),
        ensures
            final(self).wf(),
            final(self).next_key() == old(self).next_key(),
            final(self).sources() == poll_step(old(self).sources()).0,
            match poll_step(old(self).sources()).1 {
                Some(m) => r == MessagePoll::Ready(m),
                None => if final(self).sources().len() == 0 {
                    r is Ended
                } else {
                    r is Pending
                },
            },
            final(self).waiting() == (r is Pending),
    {
        let ghost s = old(self).sources();
        let n = self.sources.len();
        let mut k: usize = 0;
        proof {
            assert(s.take(0) =~= Seq::<(u64, Seq<Message<T>>, bool)>::empty());
            assert(s.subrange(0, n as int) + live(s.take(0)) =~= s);
        }
        while k < n
            invariant
                n == s.len(),
                0 <= k <= n,
                s == old(self).sources(),
                old(self).wf(),
                self.sources() == s.subrange(k as int, n as int) + live(s.take(k as int)),
                forall|j: int| 0 <= j < k ==> (#[trigger] s[j]).1.len() == 0,
                self.next_key == old(self).next_key,
            decreases n - k,
        {
            proof {
                lemma_live(s.take(k as int));
                assert(self.sources@.len() == self.sources().len());
                assert(self.sources()[0] == s[k as int]);
            }
            let ghost before = self.sources();
            let mut src = self.sources.remove(0);
            let ghost rest = self.sources();
            proof {
                assert(rest.len() == before.len() - 1);
                assert forall|i: int| 0 <= i < rest.len() implies rest[i] == before[i + 1] by {}
                assert(rest =~= before.drop_first());
                assert(rest =~= s.subrange(k as int + 1, n as int) + live(s.take(k as int)));
                assert(s.take(k as int + 1).drop_last() =~= s.take(k as int));
                assert(s.take(k as int + 1).last() == s[k as int]);
            }
            if src.queue.len() > 0 {
                let m = src.queue.remove(0);
                let ghost src_after = src@;
                self.sources.push(src);
                self.waiting = false;
                proof {
                    assert(self.sources() =~= rest.push(src_after));
                    lemma_first_ready(s, k as int);
                    assert(self.sources() =~= s.subrange(k as int + 1, n as int) + live(
                        s.take(k as int),
                    ).push((s[k as int].0, s[k as int].1.drop_first(), s[k as int].2)));
                    lemma_rotate_wf(s, k as int, self.next_key);
                    let c = s.subrange(k as int, n as int) + live(s.take(k as int));
                    assert(c[0] == s[k as int]);
                    let f = self.sources();
                    assert forall|i: int| 0 <= i < f.len() - 1 implies f[i] == c[i + 1] by {}
                    assert(distinct_keys(f)) by {
                        assert forall|i: int, j: int| 0 <= i < j < f.len() implies #[trigger] f[i].0
                            != #[trigger] f[j].0 by {
                            if j == f.len() - 1 {
                                assert(f[i] == c[i + 1]);
                                assert(c[0].0 != c[i + 1].0);
                            } else {
                                assert(f[i] == c[i + 1] && f[j] == c[j + 1]);
                            }
                        }
                    }
                    assert(keys_below(f, self.next_key)) by {
                        assert forall|i: int| 0 <= i < f.len() implies #[trigger] f[i].0 < self.next_key by {
                            if i < f.len() - 1 {
                                assert(f[i] == c[i + 1]);
                            } else {
                                assert(c[0].0 < self.next_key);
                            }
                        }
                    }
                }
                return MessagePoll::Ready(m);
            } else if src.closed {
                proof {
                    assert(live(s.take(k as int + 1)) == live(s.take(k as int)));
                    assert(self.sources() =~= s.subrange(k as int + 1, n as int) + live(
                        s.take(k as int + 1),
                    ));
                }
            } else {
                let ghost src_after = src@;
                self.sources.push(src);
                proof {
                    assert(self.sources() =~= rest.push(src_after));
                    assert(live(s.take(k as int + 1)) == live(s.take(k as int)).push(s[k as int]));
                    assert(self.sources() =~= s.subrange(k as int + 1, n as int) + live(
                        s.take(k as int + 1),
                    ));
                }
            }
            k = k + 1;
        }
        proof {
            lemma_first_ready(s, n as int);
            assert(s.take(n as int) =~= s);
            assert(self.sources() =~= live(s));
            lemma_rotate_wf(s, n as int, self.next_key);
        }
        if self.sources.len() == 0 {
            self.waiting = false;
            MessagePoll::Ended
        } else {
            self.waiting = true;
            MessagePoll::Pending
        }
    }

    /// Whether another source can still be given a key of its own.
    pub fn can_add_source(&self) -> (r: bool)
        ensures
            r == (self.next_key() < u64::MAX),
    {
        self.next_key < u64::MAX
    }

    /// Whether every source has ended and been dropped.
    pub fn is_terminated(&self) -> (r: bool)
        ensures
            r == (self.sources().len() == 0),
    {
        self.sources.len() == 0
    }
}

} // verus!
