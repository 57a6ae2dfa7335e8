use vstd::prelude::*;

use crate::queue::{Event, Handler, Outcome};

verus! {

/// A handler that answers from a script, one answer per event in order and
/// `Continue` once the script is spent, and keeps every event it is handed.
pub struct Scripted<R, E> {
    replies: Vec<Outcome<R, E>>,
    heard: Vec<Event>,
}

impl<R, E> Scripted<R, E> {
    /// The answers still to give, in order.
    pub closed spec fn script(&self) -> Seq<Outcome<R, E>> {
        self.replies@
    }

    /// The events handed so far, in order.
    pub closed spec fn heard_events(&self) -> Seq<Event> {
        self.heard@
    }

    /// A handler that will answer `replies` in order and has heard nothing.
    pub fn new(replies: Vec<Outcome<R, E>>) -> (r: Scripted<R, E>)
        ensures
            r.script() == replies@,
            r.heard_events() == Seq::<Event>::empty(),
    {
        Scripted { replies, heard: Vec::new() }
    }

    /// The events handed so far, in order.
    pub fn heard(&self) -> (r: &Vec<Event>)
        ensures
            r@ == self.heard_events(),
    {
        &self.heard
    }
}

impl<R, E> Handler<R, E> for Scripted<R, E> {
    open spec fn seen(&self) -> Seq<Event> {
        self.heard_events()
    }

    open spec fn answer(&self, event: Event) -> Outcome<R, E> {
        if self.script().len() > 0 {
            self.script()[0]
        } else {
            Outcome::Continue
        }
    }

    fn handle(&mut self, event: Event) -> (r: Outcome<R, E>) {
        self.heard.push(event);
        if self.replies.len() > 0 {
            self.replies.remove(0)
        } else {
            Outcome::Continue
        }
    }
}

} // verus!
