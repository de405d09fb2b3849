use vstd::prelude::*;

verus! {

/// What accepting a connection produced.
#[derive(Debug, Clone, Copy, PartialEq, Eq, Structural)]
pub enum AcceptEvent {
    /// A connection was accepted.
    Connection,
    /// The accept failed; the error belongs to that connection alone.
    Failed,
}

/// What the accept loop does with what it accepted.
#[derive(Debug, Clone, Copy, PartialEq, Eq, Structural)]
pub enum DispatchAction {
    /// Hand the connection to the worker pool.
    Submit,
    /// Drop it and go on accepting.
    Skip,
}

/// The decisions of the accept loop: how many accepts it makes, and what it
/// does with each. Every accept counts toward the cap, failed ones too.
pub struct Dispatcher {
    accepted: usize,
    cap: Option<usize>,
}

impl View for Dispatcher {
    /// The number of accepts so far, and the cap (`None`: serve forever).
    type V = (nat, Option<usize>);

    closed spec fn view(&self) -> (nat, Option<usize>) {
        (self.accepted as nat, self.cap)
    }
}

impl Dispatcher {
    pub fn new(cap: Option<usize>) -> (r: Dispatcher)
        ensures
            r@ == (0nat, cap),
    {
        Dispatcher { accepted: 0, cap }
    }

    /// Whether the loop accepts another connection: always without a cap (up
    /// to the largest count a `usize` holds), else while the count is below it.
    pub fn wants_more(&self) -> (r: bool)
        ensures
            r == (match self@.1 {
                None => self@.0 < usize::MAX,
                Some(c) => self@.0 < c,
            }),
    {
        match self.cap {
            None => self.accepted < usize::MAX,
            Some(c) => self.accepted < c,
        }
    }

    /// Counts one accept and says what to do with it.
    pub fn on_accept(&mut self, e: AcceptEvent) -> (r: DispatchAction)
        requires
            match old(self)@.1 {
                None => old(self)@.0 < usize::MAX,
                Some(c) => old(self)@.0 < c,
            },
        ensures
            final(self)@ == (old(self)@.0 + 1, old(self)@.1),
            e == AcceptEvent::Connection ==> r == DispatchAction::Submit,
            e == AcceptEvent::Failed ==> r == DispatchAction::Skip,
    {
        self.accepted = self.accepted + 1;
        match e {
            AcceptEvent::Connection => DispatchAction::Submit,
            AcceptEvent::Failed => DispatchAction::Skip,
        }
    }
}

} // verus!
