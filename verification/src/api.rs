use vstd::prelude::*;

verus! {

/// A container that carries a message between two addresses.
///
/// The message itself is opaque to the runtime: it only reads the addresses.
#[derive(Debug)]
pub struct Envelope<M> {
    pub message: M,
    pub from: String,
    pub to: String,
}

impl<M> Envelope<M> {
    /// Wraps a message in an envelope with empty sender and receiver addresses.
    pub fn of(message: M) -> (e: Envelope<M>)
        ensures
            e.message == message,
            e.from@ == Seq::<char>::empty(),
            e.to@ == Seq::<char>::empty(),
    {
        Envelope { message, from: String::new(), to: String::new() }
    }

    /// Sets the sender address, keeping everything else.
    pub fn from(self, from: &str) -> (e: Self)
        ensures
            e.message == self.message,
            e.from@ == from@,
            e.to == self.to,
    {
        let mut e = self;
        e.from = from.to_owned();
        e
    }

    /// Sets the receiver address, keeping everything else.
    pub fn to(self, to: &str) -> (e: Self)
        ensures
            e.message == self.message,
            e.from == self.from,
            e.to@ == to@,
    {
        let mut e = self;
        e.to = to.to_owned();
        e
    }
}

} // verus!
