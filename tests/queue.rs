use redox_event::{
    encode_batch, ChannelError, DecodeError, Event, EventFlags, EventQueue, Outcome,
    RawEventQueue, RawEventV1, Scripted,
};

type Probe = Scripted<u64, String>;
type Queue = EventQueue<Probe, u64, String>;

fn queue() -> Queue {
    EventQueue::new(RawEventQueue::new(5).unwrap())
}

fn answers(replies: Vec<Outcome<u64, String>>) -> Probe {
    Scripted::new(replies)
}

fn quiet() -> Probe {
    Scripted::new(vec![])
}

/// Registers through the subscription protocol, the channel write succeeding.
fn add(q: &mut Queue, fd: usize, flags: EventFlags, h: Probe) -> usize {
    let record = q.pending_subscription(fd, flags).unwrap();
    let id = q.register(fd, flags, h, 0).unwrap();
    assert_eq!(record, RawEventV1 { fd, user_data: id, flags: flags.bits() });
    id
}

fn ready(fd: usize, tag: usize) -> RawEventV1 {
    RawEventV1 { fd, user_data: tag, flags: EventFlags::read().bits() }
}

fn event(fd: usize, tag: usize) -> Event {
    Event { user_data: tag, flags: EventFlags::read(), fd }
}

fn heard(q: &Queue, id: usize) -> Vec<Event> {
    q.handler(id).unwrap().heard().clone()
}

fn heard_default(q: &Queue) -> Vec<Event> {
    q.default_ref().unwrap().heard().clone()
}

#[test]
fn registered_event_goes_to_its_handler_not_default() {
    let mut q = queue();
    q.set_default(quiet());
    let id = add(&mut q, 9, EventFlags::read(), answers(vec![Outcome::Stop(5)]));
    let bytes = encode_batch(&[ready(9, id)]);
    assert_eq!(q.process_bytes(&bytes), Ok(Outcome::Stop(5)));
    assert_eq!(heard(&q, id), vec![event(9, id)]);
    assert!(heard_default(&q).is_empty());
}

#[test]
fn unregistered_identity_falls_to_default() {
    let mut q = queue();
    q.set_default(answers(vec![Outcome::Stop(77)]));
    let id = add(&mut q, 4, EventFlags::read(), quiet());
    assert_eq!(
        q.pending_unsubscription(id),
        Some(RawEventV1 { fd: 4, user_data: id, flags: 0 })
    );
    let back = q.unregister(id, 0).unwrap().unwrap();
    assert!(back.heard().is_empty());
    assert!(q.unregister(id, 0).unwrap().is_none());
    assert!(q.pending_unsubscription(id).is_none());
    assert!(q.handler(id).is_none());
    assert_eq!(q.dispatch(event(4, id)), Outcome::Stop(77));
    assert_eq!(heard_default(&q), vec![event(4, id)]);
}

#[test]
fn unregistered_identity_without_default_is_dropped() {
    let mut q = queue();
    let id = add(&mut q, 4, EventFlags::read(), answers(vec![Outcome::Stop(1)]));
    let back = q.unregister(id, 0).unwrap().unwrap();
    assert_eq!(q.dispatch(event(4, id)), Outcome::Continue);
    assert!(back.heard().is_empty());
}

#[test]
fn failed_cancel_keeps_registration() {
    let mut q = queue();
    let id = add(&mut q, 4, EventFlags::read(), answers(vec![Outcome::Stop(6)]));
    // -5 (EIO) from the kernel
    assert_eq!(q.unregister(id, usize::MAX - 4).err(), Some(ChannelError::Os { errno: 5 }));
    assert_eq!(q.dispatch(event(4, id)), Outcome::Stop(6));
}

#[test]
fn same_descriptor_twice_gives_independent_identities() {
    let mut q = queue();
    let a = add(&mut q, 6, EventFlags::read(), quiet());
    let b = add(&mut q, 6, EventFlags::write(), answers(vec![Outcome::Stop(8)]));
    assert_ne!(a, b);
    let back = q.unregister(a, 0).unwrap().unwrap();
    assert_eq!(q.dispatch(event(6, b)), Outcome::Stop(8));
    assert_eq!(q.dispatch(event(6, a)), Outcome::Continue);
    assert_eq!(heard(&q, b), vec![event(6, b)]);
    assert!(back.heard().is_empty());
}

#[test]
fn broadcast_error_discards_partial_results() {
    let mut q = queue();
    let a = add(&mut q, 1, EventFlags::read(), answers(vec![Outcome::Stop(10)]));
    let b = add(&mut q, 2, EventFlags::read(), answers(vec![Outcome::Fail("boom".to_string())]));
    let c = add(&mut q, 3, EventFlags::read(), answers(vec![Outcome::Stop(30)]));
    assert_eq!(q.dispatch_all(event(0, 0)), Err("boom".to_string()));
    assert_eq!(heard(&q, a), vec![event(0, 0)]);
    assert_eq!(heard(&q, b), vec![event(0, 0)]);
    assert!(heard(&q, c).is_empty());
}

#[test]
fn broadcast_collects_stops_in_table_order() {
    let mut q = queue();
    q.set_default(answers(vec![Outcome::Stop(99)]));
    let a = add(&mut q, 1, EventFlags::read(), answers(vec![Outcome::Stop(10)]));
    let b = add(&mut q, 2, EventFlags::read(), quiet());
    let c = add(&mut q, 3, EventFlags::read(), answers(vec![Outcome::Stop(30)]));
    assert_eq!(q.dispatch_all(event(0, 0)), Ok(vec![10, 30]));
    for id in [a, b, c] {
        assert_eq!(heard(&q, id), vec![event(0, 0)]);
    }
    assert!(heard_default(&q).is_empty());
}

#[test]
fn broadcast_over_empty_table_is_empty() {
    let mut q = queue();
    assert_eq!(q.dispatch_all(event(0, 0)), Ok(vec![]));
}

#[test]
fn batch_stops_at_first_final_outcome() {
    let mut q = queue();
    let a = add(&mut q, 1, EventFlags::read(), quiet());
    let b = add(&mut q, 2, EventFlags::read(), answers(vec![Outcome::Stop(2)]));
    let c = add(&mut q, 3, EventFlags::read(), answers(vec![Outcome::Stop(3)]));
    let records = [ready(1, a), ready(2, b), ready(3, c)];
    assert_eq!(q.dispatch_batch(&records), Outcome::Stop(2));
    assert_eq!(heard(&q, a), vec![event(1, a)]);
    assert_eq!(heard(&q, b), vec![event(2, b)]);
    assert!(heard(&q, c).is_empty());
}

#[test]
fn batch_failure_stops_the_batch() {
    let mut q = queue();
    let a = add(&mut q, 1, EventFlags::read(), answers(vec![Outcome::Fail("bad".to_string())]));
    let b = add(&mut q, 2, EventFlags::read(), answers(vec![Outcome::Stop(2)]));
    let bytes = encode_batch(&[ready(1, a), ready(2, b)]);
    assert_eq!(q.process_bytes(&bytes), Ok(Outcome::Fail("bad".to_string())));
    assert!(heard(&q, b).is_empty());
}

#[test]
fn batch_of_continues_dispatches_all_in_order() {
    let mut q = queue();
    let a = add(&mut q, 1, EventFlags::read(), quiet());
    let b = add(&mut q, 2, EventFlags::read(), quiet());
    let bytes = encode_batch(&[ready(2, b), ready(1, a), RawEventV1 { fd: 2, user_data: b, flags: 2 }]);
    assert_eq!(q.process_bytes(&bytes), Ok(Outcome::Continue));
    assert_eq!(heard(&q, a), vec![event(1, a)]);
    let write = Event { user_data: b, flags: EventFlags::write(), fd: 2 };
    assert_eq!(heard(&q, b), vec![event(2, b), write]);
}

#[test]
fn handler_answers_in_order_across_events() {
    let mut q = queue();
    let a = add(
        &mut q,
        1,
        EventFlags::read(),
        answers(vec![Outcome::Continue, Outcome::Stop(11)]),
    );
    let bytes = encode_batch(&[ready(1, a), ready(1, a), ready(1, a)]);
    assert_eq!(q.process_bytes(&bytes), Ok(Outcome::Stop(11)));
    assert_eq!(heard(&q, a).len(), 2);
}

#[test]
fn malformed_batch_dispatches_nothing() {
    let mut q = queue();
    let a = add(&mut q, 1, EventFlags::read(), answers(vec![Outcome::Stop(1)]));
    let mut bytes = encode_batch(&[ready(1, a)]);
    bytes.push(0);
    assert_eq!(q.process_bytes(&bytes), Err(DecodeError::Length { len: 25 }));
    assert!(heard(&q, a).is_empty());
}

#[test]
fn scenario_stop_with_forty_two() {
    let mut q = queue();
    let id = add(&mut q, 7, EventFlags::read(), answers(vec![Outcome::Stop(42)]));
    let bytes = encode_batch(&[RawEventV1 { fd: 7, user_data: id, flags: 1 }]);
    assert_eq!(q.process_bytes(&bytes), Ok(Outcome::Stop(42)));
    assert_eq!(heard(&q, id), vec![event(7, id)]);
}

#[test]
fn scenario_stale_tag_continues_until_a_later_record_stops() {
    let mut q = queue();
    let five = add(&mut q, 5, EventFlags::read(), answers(vec![Outcome::Stop(1)]));
    let old = add(&mut q, 3, EventFlags::read(), answers(vec![Outcome::Stop(3)]));
    let gone = q.unregister(old, 0).unwrap().unwrap();
    let bytes = encode_batch(&[ready(3, old), ready(5, five)]);
    assert_eq!(q.process_bytes(&bytes), Ok(Outcome::Stop(1)));
    assert!(gone.heard().is_empty());
    assert_eq!(heard(&q, five), vec![event(5, five)]);
}

#[test]
fn failed_subscribe_rolls_back() {
    let mut q = queue();
    let before = q.pending_subscription(2, EventFlags::read()).unwrap();
    // -9 (EBADF) from the kernel
    let r = q.register(2, EventFlags::read(), quiet(), usize::MAX - 8);
    assert_eq!(r, Err(ChannelError::Os { errno: 9 }));
    assert_eq!(q.pending_subscription(2, EventFlags::read()).unwrap(), before);
    assert!(q.handler(before.user_data).is_none());
    assert_eq!(q.dispatch(event(2, before.user_data)), Outcome::Continue);
}

#[test]
fn identities_increase() {
    let mut q = queue();
    let a = add(&mut q, 1, EventFlags::read(), quiet());
    let b = add(&mut q, 1, EventFlags::read(), quiet());
    q.unregister(b, 0).unwrap();
    let c = add(&mut q, 1, EventFlags::read(), quiet());
    assert_eq!((a, b, c), (0, 1, 2));
}

#[test]
fn default_is_replaced() {
    let mut q = queue();
    q.set_default(answers(vec![Outcome::Stop(1)]));
    q.set_default(answers(vec![Outcome::Stop(2)]));
    assert_eq!(q.dispatch(event(1, 77)), Outcome::Stop(2));
    assert_eq!(heard_default(&q), vec![event(1, 77)]);
}

#[test]
fn scripted_handler_runs_out_to_continue() {
    let mut q = queue();
    q.set_default(answers(vec![Outcome::Stop(1)]));
    assert_eq!(q.dispatch(event(1, 1)), Outcome::Stop(1));
    assert_eq!(q.dispatch(event(1, 1)), Outcome::Continue);
}
