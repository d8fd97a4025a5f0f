//! Messages between machines, and the events a machine emits.
use vstd::prelude::*;

verus! {

/// What a message asks of its receiver.
#[derive(Debug)]
pub enum Action {
    /// Words to be pushed onto the receiver's data stack.
    Data { body: Vec<u16> },
}

/// A message from one machine to another.
#[derive(Debug)]
pub struct Message {
    pub from: u16,
    pub to: u16,
    pub action: Action,
}

/// The mathematical value of a message.
pub struct MessageModel {
    pub from: u16,
    pub to: u16,
    pub body: Seq<u16>,
}

impl View for Message {
    type V = MessageModel;

    open spec fn view(&self) -> MessageModel {
        match self.action {
            Action::Data { body } => MessageModel { from: self.from, to: self.to, body: body@ },
        }
    }
}

impl Message {
    /// Returns a message with the same sender, receiver and body.
    pub fn duplicate(&self) -> (r: Message)
        ensures
            r@ == self@,
    {
        match &self.action {
            Action::Data { body } => {
                let mut copy: Vec<u16> = Vec::new();
                let mut i: usize = 0;
                while i < body.len()
                    invariant
                        i <= body@.len(),
                        copy@ == body@.subrange(0, i as int),
                    decreases body@.len() - i,
                {
                    copy.push(body[i]);
                    i += 1;
                    assert(copy@ =~= body@.subrange(0, i as int));
                }
                assert(copy@ =~= body@);
                Message { from: self.from, to: self.to, action: Action::Data { body: copy } }
            },
        }
    }

    /// Returns the body of the message.
    pub fn body(&self) -> (r: &Vec<u16>)
        ensures
            r@ == self@.body,
    {
        match &self.action {
            Action::Data { body } => body,
        }
    }
}

/// An observable effect of an instruction.
#[derive(Debug)]
pub enum Event {
    /// Text printed by `Print`.
    Print { text: String },
    /// A message emitted by `Send`.
    Send { message: Message },
}

/// The mathematical value of an event.
pub enum EventModel {
    Print { text: Seq<char> },
    Send { message: MessageModel },
}

impl View for Event {
    type V = EventModel;

    open spec fn view(&self) -> EventModel {
        match self {
            Event::Print { text } => EventModel::Print { text: text@ },
            Event::Send { message } => EventModel::Send { message: message@ },
        }
    }
}

} // verus!
