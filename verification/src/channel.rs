//! The host's end of the message channel.
//!
//! The engine invokes the channel synchronously, zero or more times, from
//! within a blocking execution call. The channel cannot signal failure back;
//! all it does is observe, so the model is the ordered log of what arrived.

use vstd::prelude::*;
use crate::buffer::BufModel;
use crate::buffer::MessageBuffer;

verus! {

/// The callback state registered at context creation: an ordered log of every
/// buffer the engine has delivered through it.
pub struct MessageChannel {
    received: Vec<MessageBuffer>,
}

impl View for MessageChannel {
    type V = Seq<BufModel>;

    closed spec fn view(&self) -> Seq<BufModel> {
        self.received@.map_values(|b: MessageBuffer| b@)
    }
}

impl MessageChannel {
    /// A channel that has seen nothing yet.
    pub fn new() -> (c: MessageChannel)
        ensures
            c@ == Seq::<BufModel>::empty(),
    {
        let c = MessageChannel { received: Vec::new() };
        proof {
            assert(c@ =~= Seq::<BufModel>::empty());
        }
        c
    }

    /// One invocation of the callback: the buffer is only borrowed for the
    /// duration of the call, so the channel copies it and appends the copy to
    /// its log. No error can be signalled back.
    pub fn deliver(&mut self, buf: &MessageBuffer)
        ensures
            final(self)@ == old(self)@.push(buf@),
            buf@.wf(),
    {
        proof {
            use_type_invariant(buf);
        }
        self.received.push(buf.duplicate());
        proof {
            assert(self@ =~= old(self)@.push(buf@));
        }
    }

    /// How many deliveries the channel has observed.
    pub fn count(&self) -> (n: usize)
        ensures
            n as nat == self@.len(),
    {
        self.received.len()
    }

    /// The log of delivered buffers, in delivery order.
    pub fn log(&self) -> (l: &Vec<MessageBuffer>)
        ensures
            l@.map_values(|b: MessageBuffer| b@) == self@,
    {
        &self.received
    }

}

} // verus!
