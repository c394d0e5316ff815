//! The owned handle to one isolated execution context.
//!
//! The handle is move-only and deletion consumes it, so host code can only
//! ever delete a context once, on whatever path it leaves scope — the
//! exactly-once discipline the boundary demands is enforced by ownership,
//! not by a runtime flag. The message channel is bound to the handle at
//! creation and the engine delivers into it during execute calls.

use vstd::prelude::*;
use crate::buffer::BufModel;
use crate::buffer::MessageBuffer;
use crate::channel::MessageChannel;
use crate::encoding::encodable;
use crate::encoding::encode_arg;
use crate::encoding::lemma_encode_round_trip;
use crate::engine::complete_model;
use crate::engine::create_model;
use crate::engine::delete_model;
use crate::engine::find_behavior;
use crate::engine::throw_model;
use crate::engine::EngineModel;
use crate::engine::ModelEngine;
use crate::outcome::outcome_from_boundary;
use crate::outcome::ExecutionOutcome;
use crate::outcome::HostError;

verus! {

/// One live execution context, owned by exactly one host scope.
pub struct EngineHandle {
    id: usize,
    channel: MessageChannel,
}

impl EngineHandle {
    /// The context identifier this handle owns.
    pub closed spec fn id_of(&self) -> int {
        self.id as int
    }

    /// The buffers the engine has delivered through this handle's channel,
    /// in delivery order.
    pub closed spec fn messages_model(&self) -> Seq<BufModel> {
        self.channel@
    }

    /// The handle's context exists and is live in the given engine state.
    pub open spec fn live_in(&self, e: EngineModel) -> bool {
        e.ctx_live(self.id_of())
    }

    /// Create one isolated execution context, bound to a fresh message
    /// channel. Requires the one-time global initialization to have run; the
    /// boundary documents no failure mode for creation.
    pub fn create(engine: &mut ModelEngine) -> (h: EngineHandle)
        requires
            old(engine)@.wf(),
            old(engine)@.initialized,
        ensures
            final(engine)@ == create_model(old(engine)@),
            final(engine)@.wf(),
            h.id_of() == old(engine)@.contexts.len(),
            h.live_in(final(engine)@),
            h.messages_model() == Seq::<BufModel>::empty(),
    {
        let id = engine.create();
        EngineHandle { id, channel: MessageChannel::new() }
    }

    /// Submit a (filename, source) pair to the context and classify the
    /// outcome. Text holding an embedded nul is rejected host-side with
    /// `EncodingError` before any foreign call; otherwise the script runs,
    /// its messages arrive on this handle's channel in order, and a thrown
    /// exception is returned with the message retrieved from the still-live
    /// context.
    pub fn execute(&mut self, engine: &mut ModelEngine, filename: &str, source: &str) -> (r:
        Result<ExecutionOutcome, HostError>)
        requires
            old(engine)@.wf(),
            old(engine)@.initialized,
            old(self).live_in(old(engine)@),
        ensures
            final(engine)@.wf(),
            final(self).id_of() == old(self).id_of(),
            final(self).live_in(final(engine)@),
            (!encodable(filename@) || !encodable(source@)) ==> {
                &&& r == Err::<ExecutionOutcome, HostError>(HostError::EncodingError)
                &&& final(engine)@ == old(engine)@
                &&& final(self).messages_model() == old(self).messages_model()
            },
            (encodable(filename@) && encodable(source@)) ==> ({
                let e = old(engine)@;
                let id = old(self).id_of();
                match find_behavior(e.behaviors, filename@, source@) {
                    Some(i) => {
                        &&& final(self).messages_model() == old(self).messages_model()
                            + e.behaviors[i].sends
                        &&& (forall|k: int|
                            0 <= k < e.behaviors[i].sends.len() ==> (#[trigger] e.behaviors[
                                i
                            ].sends[k]).wf())
                        &&& (e.behaviors[i].throws ==> {
                            &&& r matches Ok(ExecutionOutcome::Exception(m)) && m@
                                == e.behaviors[i].message
                            &&& final(engine)@ == throw_model(e, id, e.behaviors[i].message)
                        })
                        &&& (!e.behaviors[i].throws ==> {
                            &&& r == Ok::<ExecutionOutcome, HostError>(ExecutionOutcome::Success)
                            &&& final(engine)@ == complete_model(e, id)
                        })
                    },
                    None => {
                        &&& r == Ok::<ExecutionOutcome, HostError>(ExecutionOutcome::Success)
                        &&& final(engine)@ == complete_model(e, id)
                        &&& final(self).messages_model() == old(self).messages_model()
                    },
                }
            }),
    {
        let filename_z = match encode_arg(filename) {
            Ok(t) => t,
            Err(err) => {
                return Err(err);
            },
        };
        let source_z = match encode_arg(source) {
            Ok(t) => t,
            Err(err) => {
                return Err(err);
            },
        };
        proof {
            lemma_encode_round_trip(filename@);
            lemma_encode_round_trip(source@);
        }
        let code = engine.raw_execute(
            self.id,
            filename_z.as_str(),
            source_z.as_str(),
            &mut self.channel,
        );
        if code == 0 {
            let msg = engine.last_exception(self.id);
            outcome_from_boundary(code, msg)
        } else {
            outcome_from_boundary(code, None)
        }
    }

    /// The last-exception query against this still-live handle: the text the
    /// engine holds for the last exception this context reported, copied out.
    pub fn last_exception(&self, engine: &ModelEngine) -> (r: Option<String>)
        requires
            self.live_in(engine@),
        ensures
            match engine@.contexts[self.id_of()].last_exception {
                Some(m) => r matches Some(s) && s@ == m,
                None => r is None,
            },
    {
        engine.last_exception(self.id)
    }

    /// How many buffers the engine has delivered through this handle.
    pub fn message_count(&self) -> (n: usize)
        ensures
            n as nat == self.messages_model().len(),
    {
        self.channel.count()
    }

    /// The delivered buffers, in delivery order.
    pub fn messages(&self) -> (l: &Vec<MessageBuffer>)
        ensures
            l@.map_values(|b: MessageBuffer| b@) == self.messages_model(),
    {
        self.channel.log()
    }

    /// Delete the context. Consuming the handle makes a second delete — or
    /// any later use — impossible to even write; the host keeps the channel
    /// and whatever it received.
    pub fn delete(self, engine: &mut ModelEngine) -> (chan: MessageChannel)
        requires
            old(engine)@.wf(),
            self.live_in(old(engine)@),
        ensures
            final(engine)@ == delete_model(old(engine)@, self.id_of()),
            final(engine)@.wf(),
            !final(engine)@.ctx_live(self.id_of()),
            chan@ == self.messages_model(),
    {
        engine.delete_context(self.id);
        self.channel
    }
}

} // verus!
