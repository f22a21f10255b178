use vstd::prelude::*;

verus! {

/// The per-event-pass accumulator: the messages widgets emitted while
/// handling one input event, and whether some widget captured the event.
/// Created fresh for each dispatch and discarded once drained.
#[derive(Debug)]
pub struct Shell<Message> {
    pub messages: Vec<Message>,
    pub event_captured: bool,
}

impl<Message> Shell<Message> {
    pub fn new() -> (r: Self)
        ensures
            r.messages@ == Seq::<Message>::empty(),
            !r.event_captured,
    {
        Shell { messages: Vec::new(), event_captured: false }
    }

    pub fn push(&mut self, message: Message)
        ensures
            final(self).messages@ == old(self).messages@.push(message),
            final(self).event_captured == old(self).event_captured,
    {
        self.messages.push(message);
    }

    pub fn is_event_captured(&self) -> (r: bool)
        ensures
            r == self.event_captured,
    {
        self.event_captured
    }

    pub fn messages(&self) -> (r: &Vec<Message>)
        ensures
            r@ == self.messages@,
    {
        &self.messages
    }
}

} // verus!
