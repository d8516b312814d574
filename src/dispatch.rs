//! Single-flight bookkeeping: at most one outstanding operation per kind,
//! and each completed result handed to the foreground loop exactly once.
use vstd::prelude::*;

verus! {

/// Where the one operation of a kind stands.
pub enum SlotState<T> {
    Idle,
    Pending,
    Completed(T),
}

/// The slot of one operation kind.
pub struct Slot<T> {
    pub state: SlotState<T>,
}

impl<T> Slot<T> {
    pub fn new() -> (r: Slot<T>)
        ensures
            r.state is Idle,
    {
        Slot { state: SlotState::Idle }
    }

    pub fn is_idle(&self) -> (r: bool)
        ensures
            r == (self.state is Idle),
    {
        match self.state {
            SlotState::Idle => true,
            _ => false,
        }
    }

    /// Starts an operation. An idle slot becomes pending; a slot that is
    /// pending, or holds a result not yet taken, refuses and stays as it is.
    pub fn start(&mut self) -> (started: bool)
        ensures
            started == (old(self).state is Idle),
            started ==> final(self).state is Pending,
            !started ==> *final(self) == *old(self),
    {
        match self.state {
            SlotState::Idle => {
                self.state = SlotState::Pending;
                true
            },
            _ => false,
        }
    }

    /// Delivers the result of the pending operation. A slot with nothing
    /// pending drops the result and stays as it is.
    pub fn complete(&mut self, result: T) -> (accepted: bool)
        ensures
            (accepted, *final(self)) == completed(*old(self), result),
    {
        match self.state {
            SlotState::Pending => {
                self.state = SlotState::Completed(result);
                true
            },
            _ => false,
        }
    }

    /// Takes the completed result, once: the slot is idle afterwards. Else
    /// nothing, and the slot stays as it is.
    pub fn poll(&mut self) -> (r: Option<T>)
        ensures
            (r, *final(self)) == polled(*old(self)),
    {
        let mut taken = SlotState::Idle;
        std::mem::swap(&mut self.state, &mut taken);
        match taken {
            SlotState::Completed(x) => Some(x),
            other => {
                self.state = other;
                None
            },
        }
    }
}

/// Whether delivering `result` to `s` is accepted, and the slot afterwards.
pub open spec fn completed<T>(s: Slot<T>, result: T) -> (bool, Slot<T>) {
    match s.state {
        SlotState::Pending => (true, Slot { state: SlotState::Completed(result) }),
        _ => (false, s),
    }
}

/// What polling `s` hands out, and the slot afterwards.
pub open spec fn polled<T>(s: Slot<T>) -> (Option<T>, Slot<T>) {
    match s.state {
        SlotState::Completed(x) => (Some(x), Slot { state: SlotState::Idle }),
        _ => (None, s),
    }
}

/// A pending operation's result is handed out by exactly one poll: the
/// first poll after delivery yields it, the next yields nothing, and the
/// kind is idle again. A second delivery before the poll is refused and
/// leaves the first result in place.
pub proof fn lemma_result_taken_once<T>(s: Slot<T>, x: T, y: T)
    requires
        s.state is Pending,
    ensures
        completed(s, x).0,
        !completed(completed(s, x).1, y).0,
        completed(completed(s, x).1, y).1 == completed(s, x).1,
        polled(completed(s, x).1).0 == Some(x),
        polled(polled(completed(s, x).1).1).0 is None,
        polled(polled(completed(s, x).1).1).1.state is Idle,
{
}

} // verus!
