//! Host orchestration: one process-lifetime of the embedding host.
//!
//! Initialize the engine once, partition the process arguments, create one
//! context, execute the bootstrap script against it, turn the outcome into
//! an exit status and an optional diagnostic, and tear the context down on
//! every path. Process concerns — argument collection, printing, the exit
//! call itself — stay with the caller; this function only decides.

use vstd::prelude::*;
use crate::buffer::BufModel;
use crate::channel::MessageChannel;
use crate::encoding::encodable;
use crate::engine::complete_model;
use crate::engine::create_model;
use crate::engine::delete_model;
use crate::engine::find_behavior;
use crate::engine::init_model;
use crate::engine::parse_model;
use crate::engine::throw_model;
use crate::engine::ModelEngine;
use crate::flags::all_encodable;
use crate::flags::partition_flags;
use crate::flags::remaining_args;
use crate::handle::EngineHandle;
use crate::outcome::ExecutionOutcome;

verus! {

/// What one run of the host decides: the exit status, the arguments left
/// for the host's own use, the diagnostic to print if any, and the message
/// channel with everything the script sent.
pub struct HostReport {
    pub exit_code: i32,
    pub remaining: Vec<String>,
    pub diagnostic: Option<String>,
    pub channel: MessageChannel,
}

/// Run the whole host sequence: init → partition flags → create → execute →
/// classify → delete. The exit status is zero exactly when nothing went
/// wrong, and a diagnostic is produced exactly when it is not; the one
/// created context is deleted on every path.
pub fn run(engine: &mut ModelEngine, args: &Vec<String>, filename: &str, source: &str) -> (r:
    HostReport)
    requires
        old(engine)@.wf(),
    ensures
        final(engine)@.wf(),
        r.exit_code == 0 || r.exit_code == 1,
        (r.exit_code == 0) <==> (r.diagnostic is None),
        ({
            let e0 = old(engine)@;
            let argsv = args.deep_view();
            let e1 = init_model(e0);
            if !all_encodable(argsv) {
                &&& r.exit_code == 1
                &&& (r.diagnostic matches Some(d) && d@ == "embedded nul in text for the engine"@)
                &&& final(engine)@ == e1
                &&& r.channel@ == Seq::<BufModel>::empty()
                &&& r.remaining@.len() == 0
            } else {
                let e2 = parse_model(e1, argsv.len() as int);
                let id = e2.contexts.len() as int;
                let e3 = create_model(e2);
                &&& r.remaining.deep_view() == remaining_args(argsv, e0.recognized)
                &&& if !encodable(filename@) || !encodable(source@) {
                    &&& r.exit_code == 1
                    &&& (r.diagnostic matches Some(d) && d@
                        == "embedded nul in text for the engine"@)
                    &&& final(engine)@ == delete_model(e3, id)
                    &&& r.channel@ == Seq::<BufModel>::empty()
                } else {
                    match find_behavior(e0.behaviors, filename@, source@) {
                        Some(i) => {
                            &&& r.channel@ == e0.behaviors[i].sends
                            &&& (e0.behaviors[i].throws ==> {
                                &&& r.exit_code == 1
                                &&& (r.diagnostic matches Some(d) && d@ == e0.behaviors[i].message)
                                &&& final(engine)@ == delete_model(
                                    throw_model(e3, id, e0.behaviors[i].message),
                                    id,
                                )
                            })
                            &&& (!e0.behaviors[i].throws ==> {
                                &&& r.exit_code == 0
                                &&& r.diagnostic is None
                                &&& final(engine)@ == delete_model(complete_model(e3, id), id)
                            })
                        },
                        None => {
                            &&& r.exit_code == 0
                            &&& r.diagnostic is None
                            &&& r.channel@ == Seq::<BufModel>::empty()
                            &&& final(engine)@ == delete_model(complete_model(e3, id), id)
                        },
                    }
                }
            }
        }),
{
    engine.init();
    let rem = match partition_flags(engine, args) {
        Ok(v) => v,
        Err(err) => {
            return HostReport {
                exit_code: 1,
                remaining: Vec::new(),
                diagnostic: Some(err.describe()),
                channel: MessageChannel::new(),
            };
        },
    };
    let mut handle = EngineHandle::create(engine);
    let outcome = handle.execute(engine, filename, source);
    match outcome {
        Ok(ExecutionOutcome::Success) => {
            let chan = handle.delete(engine);
            HostReport { exit_code: 0, remaining: rem, diagnostic: None, channel: chan }
        },
        Ok(ExecutionOutcome::Exception(m)) => {
            let chan = handle.delete(engine);
            proof {
                assert(chan@ =~= old(engine)@.behaviors[find_behavior(
                    old(engine)@.behaviors,
                    filename@,
                    source@,
                )->Some_0].sends);
            }
            HostReport { exit_code: 1, remaining: rem, diagnostic: Some(m), channel: chan }
        },
        Err(err) => {
            let chan = handle.delete(engine);
            HostReport { exit_code: 1, remaining: rem, diagnostic: Some(err.describe()), channel: chan }
        },
    }
}

} // verus!
