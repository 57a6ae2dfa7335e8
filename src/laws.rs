use vstd::prelude::*;

use crate::queue::{took, Event, EventQueue, Handler, Outcome, Registration, Target};
use crate::raw::EventFlags;

verus! {

/// After a registration that succeeded, an event tagged with the new identity
/// is handed to exactly the handler just registered, whose answer is the
/// result; no other handler, the default included, is touched.
pub proof fn lemma_registered_event_reaches_its_handler<H: Handler<R, E>, R, E>(
    q0: EventQueue<H, R, E>,
    q1: EventQueue<H, R, E>,
    q2: EventQueue<H, R, E>,
    fd: usize,
    flags: EventFlags,
    handler: H,
    id: usize,
    event: Event,
    r: Outcome<R, E>,
)
    requires
        q0.wf(),
        q0.registered_as(&q1, fd, flags, handler, id),
        event.user_data == id,
        q1.dispatch_step(&q2, event, r),
    ensures
        q1.route(id) == Target::Entry(id),
        q2.entries()[q0.entries().len() as int].id == id,
        took(handler, q2.entries()[q0.entries().len() as int].handler, event, r),
        forall|k: int| 0 <= k < q0.entries().len() ==> #[trigger] q2.entries()[k] == q1.entries()[k],
        q2.default_handler() == q1.default_handler(),
{
    let n = q0.entries().len() as int;
    assert(q1.entries()[n].id == id);
    assert(q1.is_live(id));
    let i = choose|i: int|
        0 <= i < q1.entries().len() && #[trigger] q1.entries()[i].id == id && q1.entry_took(
            &q2,
            i,
            event,
            r,
        );
    if i < n {
        assert(q1.entries()[i] == q0.entries()[i]);
    }
    assert(i == n);
    q1.lemma_keys_ids(&q2);
}

/// Once an identity is unregistered, an event tagged with it is handed to the
/// default handler, whose answer is the result, and to no registered
/// handler; without a default handler it is dropped as a `Continue`.
pub proof fn lemma_unregistered_identity_falls_through<H: Handler<R, E>, R, E>(
    q0: EventQueue<H, R, E>,
    q1: EventQueue<H, R, E>,
    q2: EventQueue<H, R, E>,
    id: usize,
    removed: Option<H>,
    event: Event,
    r: Outcome<R, E>,
)
    requires
        q0.wf(),
        q0.unregistered(&q1, id, removed),
        event.user_data == id,
        q1.dispatch_step(&q2, event, r),
    ensures
        !q1.is_live(id),
        q2.entries() == q1.entries(),
        q1.default_handler() is Some ==> took(
            q1.default_handler().unwrap(),
            q2.default_handler().unwrap(),
            event,
            r,
        ),
        q1.default_handler() is None ==> r is Continue && q2.default_handler() is None,
{
    if q0.is_live(id) {
        let i = choose|i: int|
            0 <= i < q0.entries().len() && #[trigger] q0.entries()[i].id == id && removed == Some(
                q0.entries()[i].handler,
            ) && q1.entries() == q0.entries().remove(i);
        assert forall|k: int| 0 <= k < q1.entries().len() implies #[trigger] q1.entries()[k].id
            != id by {
            if k < i {
                assert(q1.entries()[k] == q0.entries()[k]);
            } else {
                assert(q1.entries()[k] == q0.entries()[k + 1]);
            }
        }
    }
}

/// Registering the same descriptor twice gives two distinct identities, and
/// unregistering the first leaves the second routed to its own handler.
pub proof fn lemma_two_registrations_are_independent<H: Handler<R, E>, R, E>(
    q0: EventQueue<H, R, E>,
    q1: EventQueue<H, R, E>,
    q2: EventQueue<H, R, E>,
    q3: EventQueue<H, R, E>,
    fd: usize,
    flags1: EventFlags,
    handler1: H,
    id1: usize,
    flags2: EventFlags,
    handler2: H,
    id2: usize,
    r: Option<H>,
)
    requires
        q0.wf(),
        q1.wf(),
        q2.wf(),
        q0.registered_as(&q1, fd, flags1, handler1, id1),
        q1.registered_as(&q2, fd, flags2, handler2, id2),
        q2.unregistered(&q3, id1, r),
    ensures
        id1 != id2,
        r == Some(handler1),
        q3.route(id2) == Target::Entry(id2),
        exists|i: int|
            0 <= i < q3.entries().len() && #[trigger] q3.entries()[i] == (Registration {
                id: id2,
                fd,
                flags: flags2,
                handler: handler2,
            }),
        q3.route(id1) != Target::Entry(id1),
{
    let n = q0.entries().len() as int;
    assert(q2.entries()[n] == q1.entries()[n]);
    assert(q2.entries()[n].id == id1);
    assert(q2.entries()[n + 1].id == id2);
    assert(q2.is_live(id1));
    let i = choose|i: int|
        0 <= i < q2.entries().len() && #[trigger] q2.entries()[i].id == id1 && r == Some(
            q2.entries()[i].handler,
        ) && q3.entries() == q2.entries().remove(i);
    assert(i == n) by {
        if i < n {
            assert(q2.entries()[i].id < q2.entries()[n].id);
        } else if i > n {
            assert(q2.entries()[n].id < q2.entries()[i].id);
        }
    }
    assert(q3.entries()[n] == q2.entries()[n + 1]);
    assert(q3.is_live(id2));
    if q3.is_live(id1) {
        let k = choose|k: int| 0 <= k < q3.entries().len() && #[trigger] q3.entries()[k].id == id1;
        if k < n {
            assert(q3.entries()[k] == q2.entries()[k]);
        } else {
            assert(q3.entries()[k] == q2.entries()[k + 1]);
        }
    }
}

/// When a handler of a broadcast answers `Fail`, it is the last handler
/// asked, and the broadcast's result is that handler's error alone: no
/// partial sequence of results is handed out.
pub proof fn lemma_broadcast_failure_hides_partial_results<H: Handler<R, E>, R, E>(
    q0: EventQueue<H, R, E>,
    q1: EventQueue<H, R, E>,
    event: Event,
    trace: Seq<EventQueue<H, R, E>>,
    outs: Seq<Outcome<R, E>>,
    r: Result<Vec<R>, E>,
    k: int,
)
    requires
        q0.broadcast_ran_as(&q1, event, trace, outs, r),
        0 <= k < outs.len(),
        trace[k].entries()[k].handler.answer(event) is Fail,
    ensures
        r is Err,
        k == outs.len() - 1,
        trace[k].entries()[k].handler.answer(event) == Outcome::<R, E>::Fail(r->Err_0),
{
    assert(trace[k].entry_took(&trace[k + 1], k, event, outs[k]));
}

/// In a batch, the first event whose handler answers other than `Continue`
/// is the last one dispatched, that answer is the batch's result, and no
/// handler is handed a later event of the batch.
pub proof fn lemma_batch_stops_at_first_final<H: Handler<R, E>, R, E>(
    q0: EventQueue<H, R, E>,
    q1: EventQueue<H, R, E>,
    events: Seq<Event>,
    trace: Seq<EventQueue<H, R, E>>,
    outs: Seq<Outcome<R, E>>,
    r: Outcome<R, E>,
    k: int,
)
    requires
        q0.batch_ran_as(&q1, events, trace, outs, r),
        0 <= k < outs.len(),
        !(outs[k] is Continue),
    ensures
        outs.len() == k + 1,
        r == outs[k],
        forall|j: int| 0 <= j < k ==> (#[trigger] outs[j]) is Continue,
{
}

} // verus!
