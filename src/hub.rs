use crate::message::{MessageView, WsMessage};
use vstd::prelude::*;

verus! {

/// The most messages a subscription holds unread; on overflow the oldest
/// unread one is dropped.
pub const QUEUE_CAPACITY: usize = 100;

/// What one open subscription holds: the position in the hub's publish log of
/// its oldest unread message, and its unread messages, oldest first.
pub struct SubView {
    pub cursor: nat,
    pub pending: Seq<MessageView>,
}

/// The hub as a value: every message ever published, in order, and one slot
/// per subscription id (`None` for a closed or never used id).
pub struct HubView {
    pub log: Seq<MessageView>,
    pub subs: Seq<Option<SubView>>,
}

/// What a subscription looks like after `m` was published: `m` is appended,
/// and when the queue was full its oldest unread message makes room.
pub open spec fn deliver(s: SubView, m: MessageView) -> SubView {
    if s.pending.len() >= QUEUE_CAPACITY as nat {
        SubView { cursor: s.cursor + 1, pending: s.pending.drop_first().push(m) }
    } else {
        SubView { cursor: s.cursor, pending: s.pending.push(m) }
    }
}

pub open spec fn deliver_slot(o: Option<SubView>, m: MessageView) -> Option<SubView> {
    match o {
        Some(s) => Some(deliver(s, m)),
        None => None,
    }
}

/// A subscription holds exactly the messages from its cursor to the newest
/// one published, never more than the capacity.
pub open spec fn sub_consistent(s: SubView, log: Seq<MessageView>) -> bool {
    &&& s.pending.len() <= QUEUE_CAPACITY as nat
    &&& s.cursor + s.pending.len() == log.len()
    &&& s.pending == log.subrange(s.cursor as int, log.len() as int)
}

impl HubView {
    pub open spec fn wf(self) -> bool {
        forall|i: int|
            0 <= i < self.subs.len() && (#[trigger] self.subs[i]) is Some ==> sub_consistent(
                self.subs[i].unwrap(),
                self.log,
            )
    }

    pub open spec fn is_open(self, id: int) -> bool {
        0 <= id < self.subs.len() && self.subs[id] is Some
    }

    pub open spec fn pending(self, id: int) -> Seq<MessageView> {
        self.subs[id].unwrap().pending
    }

    /// The hub after `m` was published to every open subscription.
    pub open spec fn after_publish(self, m: MessageView) -> HubView {
        HubView { log: self.log.push(m), subs: self.subs.map_values(|o| deliver_slot(o, m)) }
    }

    /// The id that the next subscription gets: the lowest free slot.
    pub open spec fn free_slot(self, id: int) -> bool {
        &&& 0 <= id <= self.subs.len()
        &&& id < self.subs.len() ==> self.subs[id] is None
        &&& forall|j: int| 0 <= j < id ==> (#[trigger] self.subs[j]) is Some
    }

    /// The hub after a subscription was opened under `id`: it sees only what
    /// is published from now on.
    pub open spec fn after_subscribe(self, id: int) -> HubView {
        let fresh = Some(SubView { cursor: self.log.len(), pending: Seq::empty() });
        HubView {
            log: self.log,
            subs: if id < self.subs.len() {
                self.subs.update(id, fresh)
            } else {
                self.subs.push(fresh)
            },
        }
    }

    pub open spec fn after_unsubscribe(self, id: int) -> HubView {
        if 0 <= id < self.subs.len() {
            HubView { log: self.log, subs: self.subs.update(id, None) }
        } else {
            self
        }
    }

    /// The hub after subscription `id` took its oldest unread message.
    pub open spec fn after_receive(self, id: int) -> HubView {
        if self.is_open(id) && self.pending(id).len() > 0 {
            let s = self.subs[id].unwrap();
            HubView {
                log: self.log,
                subs: self.subs.update(
                    id,
                    Some(SubView { cursor: s.cursor + 1, pending: s.pending.drop_first() }),
                ),
            }
        } else {
            self
        }
    }
}

/// A message published while any set of clients are subscribed reaches each
/// of them in publish order: afterwards every open subscription still holds
/// an unbroken run of the publish log that ends with that message, and the
/// message a subscriber takes next is always the oldest one of its run.
pub proof fn lemma_publish_reaches_every_subscriber(v: HubView, m: MessageView)
    requires
        v.wf(),
    ensures
        v.after_publish(m).wf(),
        forall|i: int| #[trigger]
            v.is_open(i) ==> {
                let after = v.after_publish(m);
                let s = after.subs[i].unwrap();
                &&& after.is_open(i)
                &&& s.pending.len() > 0
                &&& s.pending.last() == m
                &&& s.pending == after.log.subrange(s.cursor as int, after.log.len() as int)
            },
        forall|i: int| #[trigger]
            v.is_open(i) && v.pending(i).len() > 0 ==> v.pending(i)[0] == v.log[v.subs[i].unwrap().cursor as int]
                && v.after_receive(i).wf(),
{
    lemma_after_publish_wf(v, m);
    let after = v.after_publish(m);
    assert forall|i: int| #[trigger] v.is_open(i) implies {
        let s = after.subs[i].unwrap();
        &&& after.is_open(i)
        &&& s.pending.len() > 0
        &&& s.pending.last() == m
        &&& s.pending == after.log.subrange(s.cursor as int, after.log.len() as int)
    } by {
        assert(after.subs[i] == deliver_slot(v.subs[i], m));
    }
    assert forall|i: int| #[trigger] v.is_open(i) && v.pending(i).len() > 0 implies v.pending(i)[0]
        == v.log[v.subs[i].unwrap().cursor as int] && v.after_receive(i).wf() by {
        let s = v.subs[i].unwrap();
        assert(sub_consistent(s, v.log));
        assert(s.pending.drop_first() =~= v.log.subrange((s.cursor + 1) as int, v.log.len() as int));
        let r = v.after_receive(i);
        assert forall|j: int| 0 <= j < r.subs.len() && (#[trigger] r.subs[j]) is Some implies sub_consistent(
            r.subs[j].unwrap(),
            r.log,
        ) by {
            if j != i {
                assert(r.subs[j] == v.subs[j]);
            }
        }
    }
}

/// A subscriber whose queue is full and who does not drain stays subscribed
/// when more is published: its oldest unread message is dropped (a gap), and
/// it keeps the newest messages, the new one last.
pub proof fn lemma_full_queue_drops_oldest(v: HubView, i: int, m: MessageView)
    requires
        v.wf(),
        v.is_open(i),
        v.pending(i).len() == QUEUE_CAPACITY as nat,
    ensures
        v.after_publish(m).wf(),
        v.after_publish(m).is_open(i),
        v.after_publish(m).pending(i) == v.pending(i).drop_first().push(m),
        v.after_publish(m).pending(i).len() == QUEUE_CAPACITY as nat,
        v.after_publish(m).subs[i].unwrap().cursor == v.subs[i].unwrap().cursor + 1,
        v.after_publish(m).pending(i) == v.log.push(m).subrange(
            v.log.len() as int + 1 - QUEUE_CAPACITY as int,
            v.log.len() as int + 1,
        ),
{
    lemma_after_publish_wf(v, m);
    let after = v.after_publish(m);
    assert(after.subs[i] == deliver_slot(v.subs[i], m));
    assert(sub_consistent(after.subs[i].unwrap(), after.log));
}

/// The hub after each of `ms` was published in turn.
pub open spec fn publish_all(v: HubView, ms: Seq<MessageView>) -> HubView
    decreases ms.len(),
{
    if ms.len() == 0 {
        v
    } else {
        publish_all(v, ms.drop_last()).after_publish(ms.last())
    }
}

/// The newest `QUEUE_CAPACITY` elements of `s` (all of them when fewer).
pub open spec fn newest(s: Seq<MessageView>) -> Seq<MessageView> {
    if s.len() > QUEUE_CAPACITY as nat {
        s.subrange(s.len() - QUEUE_CAPACITY as int, s.len() as int)
    } else {
        s
    }
}

/// While messages are published and a subscriber does not drain, it stays
/// subscribed and holds the newest of what it had unread followed by what
/// was published, in publish order: a burst larger than its queue leaves a
/// gap at the start, never at the end.
pub proof fn lemma_burst_keeps_newest(v: HubView, i: int, ms: Seq<MessageView>)
    requires
        v.wf(),
        v.is_open(i),
    ensures
        publish_all(v, ms).wf(),
        publish_all(v, ms).is_open(i),
        publish_all(v, ms).pending(i) == newest(v.pending(i) + ms),
    decreases ms.len(),
{
    if ms.len() > 0 {
        let prev = ms.drop_last();
        let m = ms.last();
        lemma_burst_keeps_newest(v, i, prev);
        let w = publish_all(v, prev);
        lemma_after_publish_wf(w, m);
        let after = w.after_publish(m);
        assert(after.subs[i] == deliver_slot(w.subs[i], m));
        let p = v.pending(i);
        assert(sub_consistent(v.subs[i].unwrap(), v.log));
        assert(p + ms =~= (p + prev).push(m));
        assert(newest(p + ms) =~= if w.pending(i).len() >= QUEUE_CAPACITY as nat {
            w.pending(i).drop_first().push(m)
        } else {
            w.pending(i).push(m)
        });
    } else {
        assert(v.pending(i) + ms =~= v.pending(i));
        assert(sub_consistent(v.subs[i].unwrap(), v.log));
    }
}

/// Publishing keeps every open subscription consistent with the log.
proof fn lemma_after_publish_wf(v: HubView, m: MessageView)
    requires
        v.wf(),
    ensures
        v.after_publish(m).wf(),
{
    let after = v.after_publish(m);
    assert forall|j: int| 0 <= j < after.subs.len() && (#[trigger] after.subs[j]) is Some implies sub_consistent(
        after.subs[j].unwrap(),
        after.log,
    ) by {
        let s = v.subs[j].unwrap();
        assert(after.subs[j] == deliver_slot(v.subs[j], m));
        assert(sub_consistent(s, v.log));
        let t = deliver(s, m);
        assert(t.pending =~= after.log.subrange(t.cursor as int, after.log.len() as int));
    }
}

struct Subscriber {
    queue: Vec<WsMessage>,
    cursor: Ghost<nat>,
}

impl View for Subscriber {
    type V = SubView;

    closed spec fn view(&self) -> SubView {
        SubView { cursor: self.cursor@, pending: self.queue@.map_values(|m: WsMessage| m@) }
    }
}

spec fn slot_view(o: Option<Subscriber>) -> Option<SubView> {
    match o {
        Some(s) => Some(s@),
        None => None,
    }
}

/// The single publish point: fans each message out to a bounded queue per
/// open subscription.
pub struct Hub {
    slots: Vec<Option<Subscriber>>,
    log: Ghost<Seq<MessageView>>,
}

impl View for Hub {
    type V = HubView;

    closed spec fn view(&self) -> HubView {
        HubView { log: self.log@, subs: self.slots@.map_values(|o: Option<Subscriber>| slot_view(o)) }
    }
}

impl Hub {
    pub open spec fn wf(&self) -> bool {
        self@.wf()
    }

    /// A hub with no subscription and nothing published.
    pub fn new() -> (r: Hub)
        ensures
            r.wf(),
            r@.log == Seq::<MessageView>::empty(),
            r@.subs == Seq::<Option<SubView>>::empty(),
    {
        let r = Hub { slots: Vec::new(), log: Ghost(Seq::empty()) };
        assert(r@.subs =~= Seq::<Option<SubView>>::empty());
        r
    }

    /// Publishes `m` to every open subscription. With none open the message
    /// is simply discarded.
    pub fn publish(&mut self, m: WsMessage)
        requires
            old(self).wf(),
        ensures
            final(self).wf(),
            final(self)@ == old(self)@.after_publish(m@),
    {
        let ghost before = self@;
        let ghost log2 = before.log.push(m@);
        let n = self.slots.len();
        let mut i: usize = 0;
        while i < n
            invariant
                n == self.slots@.len(),
                i <= n,
                self.log@ == before.log,
                before.wf(),
                before.subs.len() == n,
                forall|j: int| 0 <= j < i ==> slot_view(#[trigger] self.slots@[j]) == deliver_slot(before.subs[j], m@),
                forall|j: int| i <= j < n ==> slot_view(#[trigger] self.slots@[j]) == before.subs[j],
            decreases n - i,
        {
            let mut slot: Option<Subscriber> = None;
            self.slots.set_and_swap(i, &mut slot);
            let ghost was = slot_view(slot);
            assert(was == before.subs[i as int]);
            match slot {
                Some(mut sub) => {
                    if sub.queue.len() >= QUEUE_CAPACITY {
                        sub.queue.remove(0);
                        sub.cursor = Ghost(sub.cursor@ + 1);
                    }
                    sub.queue.push(m.copy_of());
                    assert(sub@.pending =~= deliver(was.unwrap(), m@).pending);
                    self.slots.set(i, Some(sub));
                },
                None => {
                    self.slots.set(i, None);
                },
            }
            i = i + 1;
        }
        self.log = Ghost(log2);
        assert(self@.subs =~= before.subs.map_values(|o| deliver_slot(o, m@)));
        proof {
            lemma_after_publish_wf(before, m@);
        }
    }

    /// Opens a subscription under the lowest free id; it receives only what
    /// is published after this call.
    pub fn subscribe(&mut self) -> (id: usize)
        requires
            old(self).wf(),
        ensures
            final(self).wf(),
            old(self)@.free_slot(id as int),
            final(self)@ == old(self)@.after_subscribe(id as int),
    {
        let ghost before = self@;
        let n = self.slots.len();
        let mut i: usize = 0;
        while i < n && self.slots[i].is_some()
            invariant
                n == self.slots@.len(),
                i <= n,
                self@ == before,
                forall|j: int| 0 <= j < i ==> (#[trigger] before.subs[j]) is Some,
            decreases n - i,
        {
            i = i + 1;
        }
        assert(i < n ==> before.subs[i as int] is None);
        let fresh = Subscriber { queue: Vec::new(), cursor: Ghost(self.log@.len()) };
        assert(fresh@.pending =~= Seq::<MessageView>::empty());
        if i < n {
            self.slots.set(i, Some(fresh));
        } else {
            self.slots.push(Some(fresh));
        }
        assert(self@.subs =~= before.after_subscribe(i as int).subs);
        assert(self@.wf()) by {
            assert(before.log.subrange(before.log.len() as int, before.log.len() as int)
                =~= Seq::<MessageView>::empty());
        }
        i
    }

    /// Closes subscription `id`, dropping what it had not read. Closing an id
    /// that is not open changes nothing.
    pub fn unsubscribe(&mut self, id: usize)
        requires
            old(self).wf(),
        ensures
            final(self).wf(),
            final(self)@ == old(self)@.after_unsubscribe(id as int),
    {
        let ghost before = self@;
        if id < self.slots.len() {
            self.slots.set(id, None);
            assert(self@.subs =~= before.subs.update(id as int, None));
        }
    }

    /// Takes the oldest unread message of subscription `id`, if it is open and
    /// has one.
    pub fn try_recv(&mut self, id: usize) -> (r: Option<WsMessage>)
        requires
            old(self).wf(),
        ensures
            final(self).wf(),
            final(self)@ == old(self)@.after_receive(id as int),
            old(self)@.is_open(id as int) && old(self)@.pending(id as int).len() > 0 ==> (r matches Some(
                m,
            ) && m@ == old(self)@.pending(id as int)[0]),
            !(old(self)@.is_open(id as int) && old(self)@.pending(id as int).len() > 0) ==> r is None,
    {
        let ghost before = self@;
        if id >= self.slots.len() {
            return None;
        }
        let mut slot: Option<Subscriber> = None;
        self.slots.set_and_swap(id, &mut slot);
        match slot {
            Some(mut sub) => {
                if sub.queue.len() == 0 {
                    self.slots.set(id, Some(sub));
                    assert(self@.subs =~= before.subs);
                    None
                } else {
                    let m = sub.queue.remove(0);
                    sub.cursor = Ghost(sub.cursor@ + 1);
                    let ghost s = before.subs[id as int].unwrap();
                    assert(sub@.pending =~= s.pending.drop_first());
                    self.slots.set(id, Some(sub));
                    assert(self@.subs =~= before.after_receive(id as int).subs);
                    assert(self@.wf()) by {
                        assert(sub_consistent(s, before.log));
                        assert(s.pending.drop_first() =~= before.log.subrange(
                            (s.cursor + 1) as int,
                            before.log.len() as int,
                        ));
                    }
                    Some(m)
                }
            },
            None => {
                self.slots.set(id, None);
                assert(self@.subs =~= before.subs);
                None
            },
        }
    }

    /// The number of unread messages of subscription `id` (0 when it is not
    /// open).
    pub fn pending_len(&self, id: usize) -> (r: usize)
        ensures
            self@.is_open(id as int) ==> r == self@.pending(id as int).len(),
            !self@.is_open(id as int) ==> r == 0,
    {
        if id < self.slots.len() {
            match &self.slots[id] {
                Some(sub) => sub.queue.len(),
                None => 0,
            }
        } else {
            0
        }
    }
}

} // verus!
