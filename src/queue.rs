use vstd::prelude::*;

use crate::channel::RawEventQueue;
use crate::codec::{decode_batch, decode_batch_spec};
use crate::error::{demux, demux_spec, ChannelError, DecodeError};
use crate::raw::{EventFlags, RawEventV1};

verus! {

/// A readiness notification: the source descriptor, the flags that became
/// ready, and the identity it was subscribed under.
#[derive(Clone, Copy, Debug, PartialEq, Eq, Structural)]
pub struct Event {
    pub user_data: usize,
    pub flags: EventFlags,
    pub fd: usize,
}

/// The event that a record carries.
pub open spec fn event_of(raw: RawEventV1) -> Event {
    Event { user_data: raw.user_data, flags: EventFlags { bits: raw.flags }, fd: raw.fd }
}

impl Event {
    /// The event that the record `raw` carries.
    pub fn from_raw(raw: &RawEventV1) -> (r: Event)
        ensures
            r == event_of(*raw),
    {
        Event { user_data: raw.user_data, flags: EventFlags::from_bits_retain(raw.flags), fd: raw.fd }
    }
}

/// What a handler answers to an event.
#[derive(Debug, PartialEq, Eq)]
pub enum Outcome<R, E> {
    /// Keep running.
    Continue,
    /// Stop the run with this result.
    Stop(R),
    /// Stop the run with this error.
    Fail(E),
}

/// A callback that the queue owns and invokes for the events routed to it.
pub trait Handler<R, E> {
    /// The events this handler has been handed, in order.
    spec fn seen(&self) -> Seq<Event>;

    /// What this handler, as it stands, answers to `event`.
    spec fn answer(&self, event: Event) -> Outcome<R, E>;

    fn handle(&mut self, event: Event) -> (r: Outcome<R, E>)
        ensures
            final(self).seen() == old(self).seen().push(event),
            r == old(self).answer(event),
    ;
}

/// Where an event goes.
#[derive(Clone, Copy, Debug, PartialEq, Eq, Structural)]
pub enum Target {
    /// The handler registered under this identity.
    Entry(usize),
    /// The default handler.
    Default,
    /// No handler: the event is dropped.
    Nobody,
}

/// One live registration.
pub struct Registration<H> {
    pub id: usize,
    pub fd: usize,
    pub flags: EventFlags,
    pub handler: H,
}

/// The identity, descriptor and flags of a registration.
pub open spec fn key_of<H>(e: Registration<H>) -> (usize, usize, EventFlags) {
    (e.id, e.fd, e.flags)
}

/// The payloads of the `Stop` answers among `outs`, in order.
pub open spec fn stop_values<R, E>(outs: Seq<Outcome<R, E>>) -> Seq<R>
    decreases outs.len(),
{
    if outs.len() == 0 {
        Seq::empty()
    } else {
        let rest = stop_values(outs.drop_last());
        match outs.last() {
            Outcome::Stop(v) => rest.push(v),
            _ => rest,
        }
    }
}

/// The handler `before` was handed `event`, became `after` and answered `r`.
pub open spec fn took<H: Handler<R, E>, R, E>(before: H, after: H, event: Event, r: Outcome<R, E>) -> bool {
    &&& after.seen() == before.seen().push(event)
    &&& r == before.answer(event)
}

/// An event queue: the channel, the registration table keyed by identity,
/// an optional default handler and the next identity to hand out.
///
/// Identities are handed out in strictly increasing order and never reused.
pub struct EventQueue<H, R, E> {
    inner: RawEventQueue,
    entries: Vec<Registration<H>>,
    default: Option<H>,
    next_id: usize,
    answers: std::marker::PhantomData<(R, E)>,
}

impl<H, R, E> EventQueue<H, R, E> {
    pub closed spec fn channel(&self) -> RawEventQueue {
        self.inner
    }

    /// The channel handle.
    pub fn channel_handle(&self) -> (r: &RawEventQueue)
        ensures
            *r == self.channel(),
    {
        &self.inner
    }
}

impl<H: Handler<R, E>, R, E> EventQueue<H, R, E> {
    /// The table's registrations, in order of registration.
    pub closed spec fn entries(&self) -> Seq<Registration<H>> {
        self.entries@
    }

    /// The identity, descriptor and flags of each registration, in order.
    pub open spec fn keys(&self) -> Seq<(usize, usize, EventFlags)> {
        self.entries().map_values(|e: Registration<H>| key_of(e))
    }

    pub closed spec fn default_handler(&self) -> Option<H> {
        self.default
    }

    pub closed spec fn next_identity(&self) -> usize {
        self.next_id
    }

    /// Identities strictly increase along the table and lie below the next one.
    pub open spec fn wf(&self) -> bool {
        &&& forall|i: int, j: int|
            0 <= i < j < self.entries().len() ==> #[trigger] self.entries()[i].id
                < #[trigger] self.entries()[j].id
        &&& forall|i: int|
            0 <= i < self.entries().len() ==> #[trigger] self.entries()[i].id
                < self.next_identity()
    }

    /// Whether `id` is a live identity.
    pub open spec fn is_live(&self, id: usize) -> bool {
        exists|i: int| 0 <= i < self.entries().len() && #[trigger] self.entries()[i].id == id
    }

    /// Where an event tagged `tag` goes.
    pub open spec fn route(&self, tag: usize) -> Target {
        if self.is_live(tag) {
            Target::Entry(tag)
        } else if self.default_handler().is_some() {
            Target::Default
        } else {
            Target::Nobody
        }
    }

    /// A queue with an empty table and no default handler, over `channel`.
    pub fn new(channel: RawEventQueue) -> (r: Self)
        ensures
            r.wf(),
            r.entries().len() == 0,
            r.default_handler().is_none(),
            r.next_identity() == 0,
            r.channel() == channel,
    {
        EventQueue {
            inner: channel,
            entries: Vec::new(),
            default: None,
            next_id: 0,
            answers: std::marker::PhantomData,
        }
    }

    /// The position of the registration with identity `id`.
    fn position(&self, id: usize) -> (r: Option<usize>)
        requires
            self.wf(),
        ensures
            match r {
                Some(i) => i < self.entries().len() && self.entries()[i as int].id == id,
                None => !self.is_live(id),
            },
    {
        let mut i: usize = 0;
        while i < self.entries.len()
            invariant
                i <= self.entries().len(),
                self.entries() == self.entries@,
                forall|j: int| 0 <= j < i ==> #[trigger] self.entries()[j].id != id,
            decreases self.entries().len() - i,
        {
            if self.entries[i].id == id {
                return Some(i);
            }
            i = i + 1;
        }
        None
    }

    /// `after` is `self` with one more registration, of `handler` for `fd` and
    /// `flags` under the identity `id`, which was the next one.
    pub open spec fn registered_as(&self, after: &Self, fd: usize, flags: EventFlags, handler: H, id: usize) -> bool {
        &&& id == self.next_identity()
        &&& after.entries() == self.entries().push(Registration { id, fd, flags, handler })
        &&& after.next_identity() == id + 1
        &&& after.default_handler() == self.default_handler()
    }

    /// `after` is `self` without the registration `id`, whose handler is `r`;
    /// or, when `id` is not live, `self` unchanged and `r` is none.
    pub open spec fn unregistered(&self, after: &Self, id: usize, r: Option<H>) -> bool {
        &&& after.next_identity() == self.next_identity()
        &&& after.default_handler() == self.default_handler()
        &&& !self.is_live(id) ==> r is None && after.entries() == self.entries()
        &&& self.is_live(id) ==> exists|i: int|
            0 <= i < self.entries().len() && #[trigger] self.entries()[i].id == id && r == Some(
                self.entries()[i].handler,
            ) && after.entries() == self.entries().remove(i)
    }

    /// The record to write on the channel so that `fd` is watched for `flags`
    /// under the identity that the next registration gets; none once every
    /// identity has been handed out.
    pub fn pending_subscription(&self, fd: usize, flags: EventFlags) -> (r: Option<RawEventV1>)
        ensures
            self.next_identity() < usize::MAX ==> r == Some(
                RawEventV1 { fd, user_data: self.next_identity(), flags: flags.bits },
            ),
            self.next_identity() == usize::MAX ==> r is None,
    {
        if self.next_id < usize::MAX {
            Some(RawEventQueue::subscription(fd, self.next_id, flags))
        } else {
            None
        }
    }

    /// Registers `handler` for `fd` and `flags`, given the raw result of writing
    /// the record of `pending_subscription` on the channel. On success the new
    /// identity is returned; on failure nothing is stored.
    pub fn register(&mut self, fd: usize, flags: EventFlags, handler: H, subscribe_result: usize) -> (r:
        Result<usize, ChannelError>)
        requires
            old(self).wf(),
        ensures
            final(self).wf(),
            final(self).default_handler() == old(self).default_handler(),
            final(self).channel() == old(self).channel(),
            old(self).next_identity() == usize::MAX ==> r == Err::<usize, ChannelError>(
                ChannelError::Exhausted,
            ),
            old(self).next_identity() < usize::MAX && demux_spec(subscribe_result) is Err
                ==> r == Err::<usize, ChannelError>(demux_spec(subscribe_result)->Err_0),
            r is Err ==> final(self).entries() == old(self).entries() && final(self).next_identity()
                == old(self).next_identity(),
            old(self).next_identity() < usize::MAX && demux_spec(subscribe_result) is Ok ==> r
                == Ok::<usize, ChannelError>(old(self).next_identity()),
            r is Ok ==> old(self).registered_as(final(self), fd, flags, handler, r->Ok_0),
    {
        if self.next_id == usize::MAX {
            return Err(ChannelError::Exhausted);
        }
        match demux(subscribe_result) {
            Err(e) => Err(e),
            Ok(_) => {
                let id = self.next_id;
                self.entries.push(Registration { id, fd, flags, handler });
                self.next_id = id + 1;
                proof {
                    let o = old(self).entries();
                    let f = self.entries();
                    assert forall|a: int, b: int| 0 <= a < b < f.len() implies #[trigger] f[a].id
                        < #[trigger] f[b].id by {
                        if b < o.len() {
                            assert(f[a] == o[a] && f[b] == o[b]);
                        } else {
                            assert(f[a] == o[a]);
                        }
                    }
                    assert forall|a: int| 0 <= a < f.len() implies #[trigger] f[a].id
                        < self.next_identity() by {
                        if a < o.len() {
                            assert(f[a] == o[a]);
                        }
                    }
                }
                Ok(id)
            },
        }
    }

    /// The record to write on the channel to cancel the registration `id`:
    /// its descriptor and identity with no flag; none when `id` is not live.
    pub fn pending_unsubscription(&self, id: usize) -> (r: Option<RawEventV1>)
        requires
            self.wf(),
        ensures
            !self.is_live(id) ==> r is None,
            self.is_live(id) ==> exists|i: int|
                0 <= i < self.entries().len() && #[trigger] self.entries()[i].id == id && r == Some(
                    RawEventV1 { fd: self.entries()[i].fd, user_data: id, flags: 0 },
                ),
    {
        match self.position(id) {
            Some(i) => Some(RawEventQueue::unsubscription(self.entries[i].fd, id)),
            None => None,
        }
    }

    /// Removes the registration `id` and hands its handler back, given the raw
    /// result of writing the record of `pending_unsubscription` on the channel.
    /// When that write failed the registration stays and the error is returned;
    /// when `id` is not live nothing was written, nothing changes and nothing is
    /// returned.
    pub fn unregister(&mut self, id: usize, cancel_result: usize) -> (r: Result<Option<H>, ChannelError>)
        requires
            old(self).wf(),
        ensures
            final(self).wf(),
            final(self).default_handler() == old(self).default_handler(),
            final(self).channel() == old(self).channel(),
            old(self).is_live(id) && demux_spec(cancel_result) is Err ==> r == Err::<Option<H>, ChannelError>(
                demux_spec(cancel_result)->Err_0,
            ) && final(self).entries() == old(self).entries() && final(self).next_identity()
                == old(self).next_identity(),
            !(old(self).is_live(id) && demux_spec(cancel_result) is Err) ==> r is Ok
                && old(self).unregistered(final(self), id, r->Ok_0),
    {
        match self.position(id) {
            Some(i) => {
                if let Err(e) = demux(cancel_result) {
                    return Err(e);
                }
                let entry = self.entries.remove(i);
                proof {
                    let o = old(self).entries();
                    let f = self.entries();
                    assert forall|a: int, b: int| 0 <= a < b < f.len() implies #[trigger] f[a].id
                        < #[trigger] f[b].id by {
                        let a2 = if a < i { a } else { a + 1 };
                        let b2 = if b < i { b } else { b + 1 };
                        assert(f[a] == o[a2] && f[b] == o[b2]);
                        assert(o[a2].id < o[b2].id);
                    }
                    assert forall|a: int| 0 <= a < f.len() implies #[trigger] f[a].id
                        < self.next_identity() by {
                        let a2 = if a < i { a } else { a + 1 };
                        assert(f[a] == o[a2]);
                    }
                }
                Ok(Some(entry.handler))
            },
            None => Ok(None),
        }
    }

    /// The handler registered under `id`, if `id` is live.
    pub fn handler(&self, id: usize) -> (r: Option<&H>)
        requires
            self.wf(),
        ensures
            !self.is_live(id) ==> r is None,
            self.is_live(id) ==> r is Some && exists|i: int|
                0 <= i < self.entries().len() && #[trigger] self.entries()[i].id == id
                    && *r.unwrap() == self.entries()[i].handler,
    {
        match self.position(id) {
            Some(i) => Some(&self.entries[i].handler),
            None => None,
        }
    }

    /// The default handler, if one is set.
    pub fn default_ref(&self) -> (r: Option<&H>)
        ensures
            r is None <==> self.default_handler() is None,
            r is Some ==> *r.unwrap() == self.default_handler().unwrap(),
    {
        match &self.default {
            Some(h) => Some(h),
            None => None,
        }
    }

    /// Installs `handler` as the default handler, dropping any earlier one.
    pub fn set_default(&mut self, handler: H)
        ensures
            final(self).default_handler() == Some(handler),
            final(self).entries() == old(self).entries(),
            final(self).next_identity() == old(self).next_identity(),
            final(self).channel() == old(self).channel(),
    {
        self.default = Some(handler);
    }


    /// What any dispatch leaves unchanged: the table's keys, the identities,
    /// the channel and whether a default handler is set.
    pub open spec fn keeps_table(&self, after: &Self) -> bool {
        &&& after.wf()
        &&& after.keys() == self.keys()
        &&& after.next_identity() == self.next_identity()
        &&& after.channel() == self.channel()
        &&& after.default_handler().is_some() == self.default_handler().is_some()
    }

    /// `after` is `self` once the handler at position `i` was handed `event` and
    /// answered `r`; every other handler, the default included, is unchanged.
    pub open spec fn entry_took(&self, after: &Self, i: int, event: Event, r: Outcome<R, E>) -> bool {
        &&& 0 <= i < self.entries().len()
        &&& after.entries().len() == self.entries().len()
        &&& took(self.entries()[i].handler, after.entries()[i].handler, event, r)
        &&& forall|k: int|
            0 <= k < self.entries().len() && k != i ==> #[trigger] after.entries()[k]
                == self.entries()[k]
        &&& after.default_handler() == self.default_handler()
    }

    /// One dispatch of `event` that came to `r`: the handler it routes to was
    /// handed the event, and `r` is that handler's answer; every other handler
    /// is unchanged. An event that routes nowhere changes nothing and gives
    /// `Continue`.
    pub open spec fn dispatch_step(&self, after: &Self, event: Event, r: Outcome<R, E>) -> bool {
        &&& self.keeps_table(after)
        &&& if self.is_live(event.user_data) {
            exists|i: int|
                0 <= i < self.entries().len() && #[trigger] self.entries()[i].id == event.user_data
                    && self.entry_took(after, i, event, r)
        } else if self.default_handler().is_some() {
            &&& after.entries() == self.entries()
            &&& after.default_handler().is_some()
            &&& took(self.default_handler().unwrap(), after.default_handler().unwrap(), event, r)
        } else {
            &&& r is Continue
            &&& after.entries() == self.entries()
            &&& after.default_handler() == self.default_handler()
        }
    }

    /// Queues with the same keys have the same identities at each position,
    /// hence the same live identities.
    pub proof fn lemma_keys_ids(&self, after: &Self)
        requires
            self.keys() == after.keys(),
        ensures
            after.entries().len() == self.entries().len(),
            forall|i: int|
                0 <= i < self.entries().len() ==> #[trigger] after.entries()[i].id
                    == self.entries()[i].id,
            forall|t: usize| after.is_live(t) == self.is_live(t),
    {
        assert(self.keys().len() == self.entries().len());
        assert(after.keys().len() == after.entries().len());
        assert forall|i: int| 0 <= i < self.entries().len() implies #[trigger] after.entries()[i].id
            == self.entries()[i].id by {
            assert(self.keys()[i] == key_of(self.entries()[i]));
            assert(after.keys()[i] == key_of(after.entries()[i]));
        }
        assert forall|t: usize| after.is_live(t) == self.is_live(t) by {
            if after.is_live(t) {
                let i = choose|i: int| 0 <= i < after.entries().len() && #[trigger] after.entries()[i].id == t;
                assert(self.entries()[i].id == t);
            }
            if self.is_live(t) {
                let i = choose|i: int| 0 <= i < self.entries().len() && #[trigger] self.entries()[i].id == t;
                assert(after.entries()[i].id == t);
            }
        }
    }

    /// Hands `event` to the handler at position `i`; nothing else changes.
    fn call_entry(&mut self, i: usize, event: Event) -> (r: Outcome<R, E>)
        requires
            old(self).wf(),
            i < old(self).entries().len(),
        ensures
            old(self).keeps_table(final(self)),
            old(self).entry_took(final(self), i as int, event, r),
    {
        let mut entry = self.entries.remove(i);
        let o = entry.handler.handle(event);
        self.entries.insert(i, entry);
        proof {
            let a = old(self).entries();
            let b = self.entries();
            assert(b =~= a.update(i as int, b[i as int]));
            assert(self.keys() =~= old(self).keys()) by {
                assert forall|k: int| 0 <= k < b.len() implies #[trigger] self.keys()[k]
                    == old(self).keys()[k] by {
                    if k != i {
                        assert(b[k] == a[k]);
                    }
                }
            }
            assert forall|x: int, y: int| 0 <= x < y < b.len() implies #[trigger] b[x].id
                < #[trigger] b[y].id by {
                assert(b[x].id == a[x].id && b[y].id == a[y].id);
            }
            assert forall|x: int| 0 <= x < b.len() implies #[trigger] b[x].id
                < self.next_identity() by {
                assert(b[x].id == a[x].id);
            }
        }
        o
    }

    /// Hands `event` to the handler of its identity, else to the default
    /// handler, else drops it as a `Continue`.
    pub fn dispatch(&mut self, event: Event) -> (r: Outcome<R, E>)
        requires
            old(self).wf(),
        ensures
            old(self).dispatch_step(final(self), event, r),
    {
        match self.position(event.user_data) {
            Some(i) => self.call_entry(i, event),
            None => {
                assert(self.keys() =~= old(self).keys());
                match &mut self.default {
                    Some(h) => h.handle(event),
                    None => Outcome::Continue,
                }
            },
        }
    }

    /// `trace` and `outs` witness a run over `events`: the queue went through
    /// the states of `trace`, the `j`-th event being dispatched from `trace[j]`
    /// to `trace[j + 1]` with answer `outs[j]`. Every answer but the last is
    /// `Continue`; a last answer other than `Continue` is `r`, and the events
    /// after it are not dispatched; when all are `Continue`, every event was
    /// dispatched and `r` is `Continue`.
    pub open spec fn batch_ran_as(
        &self,
        after: &Self,
        events: Seq<Event>,
        trace: Seq<Self>,
        outs: Seq<Outcome<R, E>>,
        r: Outcome<R, E>,
    ) -> bool {
        &&& trace.len() == outs.len() + 1
        &&& outs.len() <= events.len()
        &&& trace[0] == *self
        &&& trace.last() == *after
        &&& forall|j: int|
            0 <= j < outs.len() ==> #[trigger] trace[j].dispatch_step(&trace[j + 1], events[j], outs[j])
        &&& forall|j: int| 0 <= j < outs.len() - 1 ==> (#[trigger] outs[j]) is Continue
        &&& r is Continue ==> outs.len() == events.len() && forall|j: int|
            0 <= j < outs.len() ==> (#[trigger] outs[j]) is Continue
        &&& !(r is Continue) ==> outs.len() >= 1 && outs.last() == r
    }

    /// `events` were dispatched in order until the first answer other than
    /// `Continue`, which is `r`.
    pub open spec fn ran_batch(&self, after: &Self, events: Seq<Event>, r: Outcome<R, E>) -> bool {
        &&& self.keeps_table(after)
        &&& exists|trace: Seq<Self>, outs: Seq<Outcome<R, E>>|
            #[trigger] self.batch_ran_as(after, events, trace, outs, r)
    }

    /// Dispatches the events of `records` in order and stops at the first
    /// answer other than `Continue`, which it returns; the records after it
    /// are left alone.
    pub fn dispatch_batch(&mut self, records: &[RawEventV1]) -> (r: Outcome<R, E>)
        requires
            old(self).wf(),
        ensures
            old(self).ran_batch(final(self), records@.map_values(|x: RawEventV1| event_of(x)), r),
    {
        let ghost events = records@.map_values(|x: RawEventV1| event_of(x));
        let ghost mut trace: Seq<Self> = seq![*self];
        let ghost mut outs: Seq<Outcome<R, E>> = Seq::empty();
        assert(self.keys() =~= old(self).keys());
        let mut i: usize = 0;
        while i < records.len()
            invariant
                old(self).wf(),
                events == records@.map_values(|x: RawEventV1| event_of(x)),
                i <= records@.len(),
                old(self).keeps_table(self),
                trace.len() == i + 1,
                outs.len() == i,
                trace[0] == *old(self),
                trace[i as int] == *self,
                forall|j: int|
                    0 <= j < i ==> #[trigger] trace[j].dispatch_step(&trace[j + 1], events[j], outs[j]),
                forall|j: int| 0 <= j < i ==> (#[trigger] outs[j]) is Continue,
            decreases records@.len() - i,
        {
            let event = Event::from_raw(&records[i]);
            let ghost before = *self;
            let ghost t0 = trace;
            let ghost o0 = outs;
            let out = self.dispatch(event);
            proof {
                trace = trace.push(*self);
                outs = outs.push(out);
                assert forall|j: int|
                    0 <= j < i + 1 implies #[trigger] trace[j].dispatch_step(&trace[j + 1], events[j], outs[j]) by {
                    if j < i {
                        assert(trace[j] == t0[j] && trace[j + 1] == t0[j + 1] && outs[j] == o0[j]);
                    }
                }
            }
            match out {
                Outcome::Continue => {},
                _ => {
                    proof {
                        assert forall|j: int| 0 <= j < outs.len() - 1 implies (#[trigger] outs[j]) is Continue by {
                            assert(outs[j] == o0[j]);
                        }
                        assert(old(self).batch_ran_as(self, events, trace, outs, out));
                    }
                    return out;
                },
            }
            proof {
                assert forall|j: int| 0 <= j < i + 1 implies (#[trigger] outs[j]) is Continue by {
                    if j < i {
                        assert(outs[j] == o0[j]);
                    }
                }
            }
            i = i + 1;
        }
        assert(old(self).batch_ran_as(self, events, trace, outs, Outcome::Continue));
        Outcome::Continue
    }

    /// Decodes a packed batch of records and dispatches its events as
    /// `dispatch_batch` does; a malformed batch is rejected before any dispatch.
    pub fn process_bytes(&mut self, bytes: &[u8]) -> (r: Result<Outcome<R, E>, DecodeError>)
        requires
            old(self).wf(),
        ensures
            match decode_batch_spec(bytes@) {
                Err(e) => r == Err::<Outcome<R, E>, DecodeError>(e) && *final(self) == *old(self),
                Ok(rs) => r is Ok && old(self).ran_batch(
                    final(self),
                    rs.map_values(|x: RawEventV1| event_of(x)),
                    r->Ok_0,
                ),
            },
    {
        match decode_batch(bytes) {
            Err(e) => Err(e),
            Ok(records) => Ok(self.dispatch_batch(records.as_slice())),
        }
    }

    /// `trace` and `outs` witness a broadcast of `event`: the `j`-th handler of
    /// the table was handed the event from `trace[j]` to `trace[j + 1]` and
    /// answered `outs[j]`. Only the last answer may be `Fail`; then `r` is that
    /// error alone. Otherwise every handler answered and `r` holds the payload
    /// of each `Stop`, in table order. The default handler is not involved.
    pub open spec fn broadcast_ran_as(
        &self,
        after: &Self,
        event: Event,
        trace: Seq<Self>,
        outs: Seq<Outcome<R, E>>,
        r: Result<Vec<R>, E>,
    ) -> bool {
        &&& trace.len() == outs.len() + 1
        &&& outs.len() <= self.entries().len()
        &&& trace[0] == *self
        &&& trace.last() == *after
        &&& forall|j: int|
            0 <= j < outs.len() ==> #[trigger] trace[j].entry_took(&trace[j + 1], j, event, outs[j])
                && trace[j].keeps_table(&trace[j + 1])
        &&& forall|j: int| 0 <= j < outs.len() - 1 ==> !((#[trigger] outs[j]) is Fail)
        &&& r is Ok ==> {
            &&& outs.len() == self.entries().len()
            &&& forall|j: int| 0 <= j < outs.len() ==> !((#[trigger] outs[j]) is Fail)
            &&& r->Ok_0@ == stop_values(outs)
        }
        &&& r is Err ==> outs.len() >= 1 && outs.last() == Outcome::<R, E>::Fail(r->Err_0)
    }

    /// `event` was handed to the registered handlers in table order until the
    /// first `Fail`, with `r` as `broadcast_ran_as` says.
    pub open spec fn ran_broadcast(&self, after: &Self, event: Event, r: Result<Vec<R>, E>) -> bool {
        &&& self.keeps_table(after)
        &&& after.default_handler() == self.default_handler()
        &&& exists|trace: Seq<Self>, outs: Seq<Outcome<R, E>>|
            #[trigger] self.broadcast_ran_as(after, event, trace, outs, r)
    }

    /// Hands `event` to every registered handler in table order and collects
    /// the payload of each `Stop`; the first `Fail` ends the broadcast and its
    /// error is returned in place of the payloads gathered so far.
    pub fn dispatch_all(&mut self, event: Event) -> (r: Result<Vec<R>, E>)
        requires
            old(self).wf(),
        ensures
            old(self).ran_broadcast(final(self), event, r),
    {
        let ghost mut trace: Seq<Self> = seq![*self];
        let ghost mut outs: Seq<Outcome<R, E>> = Seq::empty();
        assert(self.keys() =~= old(self).keys());
        let mut results: Vec<R> = Vec::new();
        let mut i: usize = 0;
        while i < self.entries.len()
            invariant
                old(self).wf(),
                i <= self.entries().len(),
                old(self).keeps_table(self),
                self.default_handler() == old(self).default_handler(),
                self.entries().len() == old(self).entries().len(),
                trace.len() == i + 1,
                outs.len() == i,
                trace[0] == *old(self),
                trace[i as int] == *self,
                forall|j: int|
                    0 <= j < i ==> #[trigger] trace[j].entry_took(&trace[j + 1], j, event, outs[j])
                        && trace[j].keeps_table(&trace[j + 1]),
                forall|j: int| 0 <= j < i ==> !((#[trigger] outs[j]) is Fail),
                results@ == stop_values(outs),
            decreases self.entries().len() - i,
        {
            let ghost before = *self;
            let ghost t0 = trace;
            let ghost o0 = outs;
            proof {
                old(self).lemma_keys_ids(&before);
            }
            let out = self.call_entry(i, event);
            proof {
                trace = trace.push(*self);
                outs = outs.push(out);
                assert(outs.drop_last() =~= o0);
                assert forall|j: int|
                    0 <= j < i + 1 implies #[trigger] trace[j].entry_took(&trace[j + 1], j, event, outs[j])
                        && trace[j].keeps_table(&trace[j + 1]) by {
                    if j < i {
                        assert(trace[j] == t0[j] && trace[j + 1] == t0[j + 1] && outs[j] == o0[j]);
                    }
                }
                before.lemma_keys_ids(self);
            }
            match out {
                Outcome::Continue => {},
                Outcome::Stop(v) => {
                    results.push(v);
                },
                Outcome::Fail(e) => {
                    proof {
                        assert forall|j: int| 0 <= j < outs.len() - 1 implies !((#[trigger] outs[j]) is Fail) by {
                            assert(outs[j] == o0[j]);
                        }
                        assert(old(self).broadcast_ran_as(self, event, trace, outs, Err::<Vec<R>, E>(e)));
                    }
                    return Err(e);
                },
            }
            proof {
                assert forall|j: int| 0 <= j < i + 1 implies !((#[trigger] outs[j]) is Fail) by {
                    if j < i {
                        assert(outs[j] == o0[j]);
                    }
                }
            }
            i = i + 1;
        }
        assert(old(self).broadcast_ran_as(self, event, trace, outs, Ok::<Vec<R>, E>(results)));
        Ok(results)
    }
}

} // verus!
