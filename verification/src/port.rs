use vstd::prelude::*;

use crate::block::DataBlock;
use crate::error::ErrorCode;

verus! {

/// A one-slot handoff channel between exactly one producer and one consumer.
///
/// The slot carries one data batch or the terminal error of the stream. Two
/// flags steer backpressure: `need_data` is raised by the consumer when it
/// wants more, and cleared by a push; `finish_flag` is raised by either side,
/// once, to terminate the channel. No operation blocks: waiting is expressed
/// entirely through the processor event protocol.
///
/// A port with a raised finish flag still reports `!is_finished()` while a
/// batch sits undrained in the slot, so the consumer always drains pending
/// data before treating the channel as exhausted and no batch is silently
/// dropped.
pub struct Port {
    slot: Option<Result<DataBlock, ErrorCode>>,
    need_data: bool,
    finish_flag: bool,
}

impl Port {
    /// The pending batch or terminal signal, if any.
    pub closed spec fn pending(&self) -> Option<Result<DataBlock, ErrorCode>> {
        self.slot
    }

    /// Whether the consumer has asked for more data.
    pub closed spec fn need_flag(&self) -> bool {
        self.need_data
    }

    /// Whether either side has terminated the channel.
    pub closed spec fn fin_flag(&self) -> bool {
        self.finish_flag
    }

    pub open spec fn spec_has_data(&self) -> bool {
        self.pending() is Some
    }

    /// Finished from the consumer's point of view: terminated and drained.
    pub open spec fn spec_is_finished(&self) -> bool {
        self.fin_flag() && self.pending() is None
    }

    /// The producer may push only into an empty, unfinished slot whose
    /// consumer has asked for data.
    pub open spec fn spec_can_push(&self) -> bool {
        self.need_flag() && self.pending() is None && !self.fin_flag()
    }

    /// A fresh channel: empty slot, no request, not finished.
    pub fn create() -> (r: Port)
        ensures
            r.pending() is None,
            !r.need_flag(),
            !r.fin_flag(),
    {
        Port { slot: None, need_data: false, finish_flag: false }
    }

    pub fn has_data(&self) -> (r: bool)
        ensures
            r == self.spec_has_data(),
    {
        self.slot.is_some()
    }

    pub fn is_finished(&self) -> (r: bool)
        ensures
            r == self.spec_is_finished(),
    {
        self.finish_flag && self.slot.is_none()
    }

    pub fn can_push(&self) -> (r: bool)
        ensures
            r == self.spec_can_push(),
    {
        self.need_data && self.slot.is_none() && !self.finish_flag
    }

    /// The consumer signals that it wants more data.
    pub fn set_need_data(&mut self)
        ensures
            final(self).pending() == old(self).pending(),
            final(self).need_flag(),
            final(self).fin_flag() == old(self).fin_flag(),
    {
        self.need_data = true;
    }

    /// The producer deposits a batch or terminal signal; the pending request
    /// is thereby answered.
    pub fn push_data(&mut self, data: Result<DataBlock, ErrorCode>)
        requires
            old(self).spec_can_push(),
        ensures
            final(self).pending() == Some(data),
            !final(self).need_flag(),
            final(self).fin_flag() == old(self).fin_flag(),
    {
        self.slot = Some(data);
        self.need_data = false;
    }

    /// The consumer takes the pending batch or terminal signal, clearing the
    /// slot. Returns `None` when nothing is pending.
    pub fn pull_data(&mut self) -> (r: Option<Result<DataBlock, ErrorCode>>)
        ensures
            r == old(self).pending(),
            final(self).pending() is None,
            final(self).need_flag() == old(self).need_flag(),
            final(self).fin_flag() == old(self).fin_flag(),
    {
        self.slot.take()
    }

    /// Either side terminates the channel. Idempotent, and terminal: no
    /// operation lowers the flag again.
    pub fn finish(&mut self)
        ensures
            final(self).pending() == old(self).pending(),
            final(self).need_flag() == old(self).need_flag(),
            final(self).fin_flag(),
    {
        self.finish_flag = true;
    }
}

/// Port invariant: whatever sequence of operations produced `p`, a port never
/// reports data pending and finished at once — an undrained batch keeps the
/// port unfinished — and a port never accepts a push while its slot is
/// occupied.
pub proof fn lemma_port_invariant(p: Port)
    ensures
        !(p.spec_has_data() && p.spec_is_finished()),
        p.spec_has_data() ==> !p.spec_can_push(),
{
}

} // verus!
