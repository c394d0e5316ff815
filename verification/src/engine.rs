//! A model of the engine's side of the foreign boundary.
//!
//! The real engine is an opaque native runtime reached only through a
//! foreign-function interface; the host relies on nothing but its documented
//! contract. This module states that contract as a mathematical model and
//! provides an executable engine stub that provably meets it, so the host's
//! own logic — and its tests — run against an engine whose behaviour is
//! pinned down: one-time initialization, an in-place flag parser, context
//! creation and exactly-once deletion, an execute entry returning a
//! boolean-like result, and a last-exception query against a live context.

use vstd::prelude::*;
use vstd::string::*;
use crate::buffer::BufModel;
use crate::buffer::MessageBuffer;
use crate::channel::MessageChannel;
use crate::encoding::payload;
use crate::encoding::wf_encoded;

verus! {

/// What the engine does for one known (filename, source) pair: either the
/// script completes, or it throws with a message; either way it may push
/// buffers through the message channel first, in order.
#[verifier::ext_equal]
pub struct BehaviorModel {
    pub filename: Seq<char>,
    pub source: Seq<char>,
    pub throws: bool,
    pub message: Seq<char>,
    pub sends: Seq<BufModel>,
}

/// One execution context, as the boundary documents it: live until deleted,
/// holding the message of the last exception it reported, if any.
#[verifier::ext_equal]
pub struct CtxModel {
    pub live: bool,
    pub last_exception: Option<Seq<char>>,
}

/// The engine's whole observable state. Contexts are identified by the order
/// of their creation and are never forgotten, only marked dead, so the model
/// also is the record of every create call. The logs record each foreign
/// entry the host invoked: the argument count handed to each flag-parser
/// call, and the context behind each execute and each delete call.
#[verifier::ext_equal]
pub struct EngineModel {
    pub initialized: bool,
    pub recognized: Seq<Seq<char>>,
    pub behaviors: Seq<BehaviorModel>,
    pub contexts: Seq<CtxModel>,
    pub flag_parse_log: Seq<int>,
    pub execute_log: Seq<int>,
    pub delete_log: Seq<int>,
}

impl EngineModel {
    /// The lifecycle invariant of the boundary: every recorded delete names a
    /// context that exists and is dead, a context is dead exactly when a
    /// delete of it was recorded, and no context is deleted twice.
    pub open spec fn wf(self) -> bool {
        &&& self.delete_log.no_duplicates()
        &&& (forall|j: int|
            0 <= j < self.delete_log.len() ==> 0 <= #[trigger] self.delete_log[j]
                < self.contexts.len())
        &&& (forall|i: int|
            0 <= i < self.contexts.len() ==> (!(#[trigger] self.contexts[i].live)
                <==> self.delete_log.contains(i)))
    }

    /// Context `id` exists and has not been deleted.
    pub open spec fn ctx_live(self, id: int) -> bool {
        0 <= id < self.contexts.len() && self.contexts[id].live
    }
}

/// A context that was just created.
pub open spec fn fresh_ctx() -> CtxModel {
    CtxModel { live: true, last_exception: None }
}

/// One-time global initialization.
pub open spec fn init_model(e: EngineModel) -> EngineModel {
    EngineModel { initialized: true, ..e }
}

/// A create call: the new context's identifier is the next creation index.
pub open spec fn create_model(e: EngineModel) -> EngineModel {
    EngineModel { contexts: e.contexts.push(fresh_ctx()), ..e }
}

/// A delete call against context `id`.
pub open spec fn delete_model(e: EngineModel, id: int) -> EngineModel {
    EngineModel {
        contexts: e.contexts.update(id, CtxModel { live: false, ..e.contexts[id] }),
        delete_log: e.delete_log.push(id),
        ..e
    }
}

/// A flag-parser call that was handed `argc` arguments.
pub open spec fn parse_model(e: EngineModel, argc: int) -> EngineModel {
    EngineModel { flag_parse_log: e.flag_parse_log.push(argc), ..e }
}

/// An execute call against context `id` whose script completed.
pub open spec fn complete_model(e: EngineModel, id: int) -> EngineModel {
    EngineModel { execute_log: e.execute_log.push(id), ..e }
}

/// An execute call against context `id` whose script threw with `msg`: the
/// context stays live and now holds `msg` as its last exception.
pub open spec fn throw_model(e: EngineModel, id: int, msg: Seq<char>) -> EngineModel {
    EngineModel {
        contexts: e.contexts.update(id, CtxModel { last_exception: Some(msg), ..e.contexts[id] }),
        execute_log: e.execute_log.push(id),
        ..e
    }
}

/// The first behavior whose filename and source both match, if any: the
/// engine runs a known script the way its table says and treats an unknown
/// one as completing silently.
pub open spec fn find_behavior(behaviors: Seq<BehaviorModel>, filename: Seq<char>, source: Seq<char>) -> Option<int>
    decreases behaviors.len(),
{
    if behaviors.len() == 0 {
        None
    } else if behaviors[0].filename == filename && behaviors[0].source == source {
        Some(0int)
    } else {
        match find_behavior(behaviors.drop_first(), filename, source) {
            None => None,
            Some(i) => Some(i + 1),
        }
    }
}

/// `find_behavior` returns the first matching index, and `None` exactly when
/// nothing matches.
pub proof fn lemma_find_behavior(behaviors: Seq<BehaviorModel>, filename: Seq<char>, source: Seq<char>)
    ensures
        match find_behavior(behaviors, filename, source) {
            Some(i) => {
                &&& 0 <= i < behaviors.len()
                &&& behaviors[i].filename == filename
                &&& behaviors[i].source == source
                &&& forall|j: int|
                    0 <= j < i ==> !(#[trigger] behaviors[j].filename == filename
                        && behaviors[j].source == source)
            },
            None => forall|j: int|
                0 <= j < behaviors.len() ==> !(#[trigger] behaviors[j].filename == filename
                    && behaviors[j].source == source),
        },
    decreases behaviors.len(),
{
    if behaviors.len() == 0 {
    } else if behaviors[0].filename == filename && behaviors[0].source == source {
    } else {
        let rest = behaviors.drop_first();
        lemma_find_behavior(rest, filename, source);
        assert(forall|j: int| 0 <= j < rest.len() ==> rest[j] == behaviors[j + 1]);
        match find_behavior(rest, filename, source) {
            Some(i) => {
                assert(behaviors[i + 1] == rest[i]);
                assert forall|j: int|
                    0 <= j < i + 1 implies !(#[trigger] behaviors[j].filename == filename
                    && behaviors[j].source == source) by {
                    if j > 0 {
                        assert(behaviors[j] == rest[j - 1]);
                    }
                }
            },
            None => {
                assert forall|j: int|
                    0 <= j < behaviors.len() implies !(#[trigger] behaviors[j].filename == filename
                    && behaviors[j].source == source) by {
                    if j > 0 {
                        assert(behaviors[j] == rest[j - 1]);
                    }
                }
            },
        }
    }
}

/// What the in-place flag parser leaves behind: the arguments, in their
/// original order, whose carried text the engine does not recognize as one
/// of its own flags. Arguments are in transport form; `recognized` holds
/// plain flag text.
pub open spec fn retained(args: Seq<Seq<char>>, recognized: Seq<Seq<char>>) -> Seq<Seq<char>>
    decreases args.len(),
{
    if args.len() == 0 {
        Seq::empty()
    } else if recognized.contains(payload(args[0])) {
        retained(args.drop_first(), recognized)
    } else {
        seq![args[0]] + retained(args.drop_first(), recognized)
    }
}

/// Every argument the parser leaves behind was among the arguments it was
/// given.
pub proof fn lemma_retained_elements(args: Seq<Seq<char>>, recognized: Seq<Seq<char>>)
    ensures
        forall|k: int|
            0 <= k < retained(args, recognized).len() ==> args.contains(
                #[trigger] retained(args, recognized)[k],
            ),
    decreases args.len(),
{
    if args.len() == 0 {
    } else {
        let rest = args.drop_first();
        lemma_retained_elements(rest, recognized);
        assert forall|k: int| 0 <= k < retained(args, recognized).len() implies args.contains(
            #[trigger] retained(args, recognized)[k],
        ) by {
            let r = retained(args, recognized);
            if recognized.contains(payload(args[0])) {
                assert(r[k] == retained(rest, recognized)[k]);
                let j = choose|j: int| 0 <= j < rest.len() && rest[j] == r[k];
                assert(args[j + 1] == r[k]);
            } else {
                if k == 0 {
                    assert(r[0] == args[0]);
                } else {
                    assert(r[k] == retained(rest, recognized)[k - 1]);
                    let j = choose|j: int|
                        0 <= j < rest.len() && rest[j] == retained(rest, recognized)[k - 1];
                    assert(args[j + 1] == r[k]);
                }
            }
        }
    }
}

/// Creation preserves the lifecycle invariant, and the new context is live.
pub proof fn lemma_create_preserves_wf(e: EngineModel)
    requires
        e.wf(),
    ensures
        create_model(e).wf(),
        create_model(e).ctx_live(e.contexts.len() as int),
{
    let e2 = create_model(e);
    let n = e.contexts.len() as int;
    assert forall|i: int|
        0 <= i < e2.contexts.len() implies (!(#[trigger] e2.contexts[i].live)
        <==> e2.delete_log.contains(i)) by {
        if i < n {
            assert(e2.contexts[i] == e.contexts[i]);
        } else {
            assert(e2.contexts[i].live);
            if e2.delete_log.contains(i) {
                let j = choose|j: int| 0 <= j < e2.delete_log.len() && e2.delete_log[j] == i;
                assert(e.delete_log[j] < n);
            }
        }
    }
}

/// Deletion of a live context preserves the lifecycle invariant, kills that
/// context and no other, and records the delete as the first and only one of
/// this context.
pub proof fn lemma_delete_preserves_wf(e: EngineModel, id: int)
    requires
        e.wf(),
        e.ctx_live(id),
    ensures
        delete_model(e, id).wf(),
        !e.delete_log.contains(id),
        delete_model(e, id).delete_log.contains(id),
        !delete_model(e, id).ctx_live(id),
{
    let e2 = delete_model(e, id);
    let log2 = e2.delete_log;
    assert(!e.delete_log.contains(id));
    assert(forall|j: int| 0 <= j < e.delete_log.len() ==> log2[j] == e.delete_log[j]);
    assert(log2[e.delete_log.len() as int] == id);
    assert forall|j: int, k: int|
        0 <= j < log2.len() && 0 <= k < log2.len() && j != k implies log2[j] != log2[k] by {
        if j < e.delete_log.len() && k < e.delete_log.len() {
            assert(e.delete_log[j] != e.delete_log[k]);
        } else if j < e.delete_log.len() {
            assert(log2[k] == id);
            if log2[j] == id {
                assert(e.delete_log.contains(id));
            }
        } else if k < e.delete_log.len() {
            assert(log2[j] == id);
            if log2[k] == id {
                assert(e.delete_log.contains(id));
            }
        }
    }
    assert forall|i: int|
        0 <= i < e2.contexts.len() implies (!(#[trigger] e2.contexts[i].live)
        <==> log2.contains(i)) by {
        if i == id {
            assert(!e2.contexts[i].live);
            assert(log2[e.delete_log.len() as int] == id);
        } else {
            assert(e2.contexts[i] == e.contexts[i]);
            if e.delete_log.contains(i) {
                let j = choose|j: int| 0 <= j < e.delete_log.len() && e.delete_log[j] == i;
                assert(log2[j] == i);
            }
            if log2.contains(i) {
                let j = choose|j: int| 0 <= j < log2.len() && log2[j] == i;
                assert(j < e.delete_log.len());
                assert(e.delete_log[j] == i);
            }
        }
    }
}

/// A throwing execute call preserves the lifecycle invariant: it only
/// replaces the stored exception of a live context.
pub proof fn lemma_throw_preserves_wf(e: EngineModel, id: int, msg: Seq<char>)
    requires
        e.wf(),
        0 <= id < e.contexts.len(),
    ensures
        throw_model(e, id, msg).wf(),
    {
    let e2 = throw_model(e, id, msg);
    assert forall|i: int|
        0 <= i < e2.contexts.len() implies (!(#[trigger] e2.contexts[i].live)
        <==> e2.delete_log.contains(i)) by {
        assert(e2.contexts[i].live == e.contexts[i].live);
    }
}

/// The exception round-trip law: after an execute call that threw with
/// `msg`, the context is exactly as live as before, and the last-exception
/// query against it — before any other call — yields exactly `msg`.
pub proof fn lemma_exception_round_trip(e: EngineModel, id: int, msg: Seq<char>)
    requires
        0 <= id < e.contexts.len(),
    ensures
        throw_model(e, id, msg).contexts[id].last_exception == Some(msg),
        throw_model(e, id, msg).ctx_live(id) == e.ctx_live(id),
{
}

/// One behavior matches one decoded (filename, source) pair.
pub open spec fn behavior_matches(b: BehaviorModel, filename: Seq<char>, source: Seq<char>) -> bool {
    b.filename == filename && b.source == source
}

/// One entry of the engine stub's behavior table.
pub struct ScriptBehavior {
    pub filename: String,
    pub source: String,
    pub throws: bool,
    pub message: String,
    pub sends: Vec<MessageBuffer>,
}

impl View for ScriptBehavior {
    type V = BehaviorModel;

    open spec fn view(&self) -> BehaviorModel {
        BehaviorModel {
            filename: self.filename@,
            source: self.source@,
            throws: self.throws,
            message: self.message@,
            sends: self.sends@.map_values(|b: MessageBuffer| b@),
        }
    }
}

/// One execution context of the engine stub.
pub struct ContextState {
    pub live: bool,
    pub last_exception: Option<String>,
}

impl View for ContextState {
    type V = CtxModel;

    open spec fn view(&self) -> CtxModel {
        CtxModel {
            live: self.live,
            last_exception: match self.last_exception {
                Some(s) => Some(s@),
                None => None,
            },
        }
    }
}

/// The engine stub: an executable engine whose every foreign entry provably
/// follows the modelled contract. Tests run the host against it and read the
/// logs off it, exactly as one counts calls against a fake of the native
/// library.
pub struct ModelEngine {
    initialized: bool,
    recognized: Vec<String>,
    behaviors: Vec<ScriptBehavior>,
    contexts: Vec<ContextState>,
    flag_parse_log: Vec<usize>,
    execute_log: Vec<usize>,
    delete_log: Vec<usize>,
}

impl View for ModelEngine {
    type V = EngineModel;

    closed spec fn view(&self) -> EngineModel {
        EngineModel {
            initialized: self.initialized,
            recognized: self.recognized.deep_view(),
            behaviors: self.behaviors@.map_values(|b: ScriptBehavior| b@),
            contexts: self.contexts@.map_values(|c: ContextState| c@),
            flag_parse_log: self.flag_parse_log@.map_values(|x: usize| x as int),
            execute_log: self.execute_log@.map_values(|x: usize| x as int),
            delete_log: self.delete_log@.map_values(|x: usize| x as int),
        }
    }
}

impl ModelEngine {
    /// A fresh, not yet initialized engine that recognizes the given flags
    /// and runs scripts the way `behaviors` says.
    pub fn new(recognized: Vec<String>, behaviors: Vec<ScriptBehavior>) -> (e: ModelEngine)
        ensures
            e@ == (EngineModel {
                initialized: false,
                recognized: recognized.deep_view(),
                behaviors: behaviors@.map_values(|b: ScriptBehavior| b@),
                contexts: Seq::<CtxModel>::empty(),
                flag_parse_log: Seq::<int>::empty(),
                execute_log: Seq::<int>::empty(),
                delete_log: Seq::<int>::empty(),
            }),
            e@.wf(),
    {
        let e = ModelEngine {
            initialized: false,
            recognized,
            behaviors,
            contexts: Vec::new(),
            flag_parse_log: Vec::new(),
            execute_log: Vec::new(),
            delete_log: Vec::new(),
        };
        proof {
            assert(e@ =~~= (EngineModel {
                initialized: false,
                recognized: e.recognized.deep_view(),
                behaviors: e.behaviors@.map_values(|b: ScriptBehavior| b@),
                contexts: Seq::<CtxModel>::empty(),
                flag_parse_log: Seq::<int>::empty(),
                execute_log: Seq::<int>::empty(),
                delete_log: Seq::<int>::empty(),
            }));
        }
        e
    }

    /// The one-time global initialization the boundary demands before any
    /// other call.
    pub fn init(&mut self)
        ensures
            final(self)@ == init_model(old(self)@),
    {
        self.initialized = true;
        proof {
            assert(self@ =~~= init_model(old(self)@));
        }
    }

    /// Whether global initialization has run.
    pub fn is_initialized(&self) -> (r: bool)
        ensures
            r == self@.initialized,
    {
        self.initialized
    }

    /// The flag parser: scans an array of transport-encoded arguments and
    /// removes, in place, those whose text it recognizes as its own flags,
    /// shrinking the reported count and preserving the order of the rest.
    #[verifier::loop_isolation(false)]
    pub fn parse_flags(&mut self, args: &mut Vec<String>)
        requires
            old(self)@.initialized,
            forall|i: int| 0 <= i < old(args)@.len() ==> wf_encoded(#[trigger] old(args)@[i]@),
        ensures
            final(self)@ == parse_model(old(self)@, old(args)@.len() as int),
            final(args).deep_view() == retained(old(args).deep_view(), old(self)@.recognized),
    {
        let ghost full = args.deep_view();
        let ghost rec = self@.recognized;
        let mut kept: Vec<String> = Vec::new();
        let n = args.len();
        let mut i: usize = 0;
        proof {
            assert(full.skip(0) =~= full);
            assert(kept.deep_view() =~= Seq::<Seq<char>>::empty());
            assert(kept.deep_view() + retained(full, rec) =~= retained(full, rec));
        }
        while i < n
            invariant
                0 <= i <= n,
                kept.deep_view() + retained(full.skip(i as int), rec) == retained(full, rec),
            decreases n - i,
        {
            proof {
                assert(args.deep_view()[i as int] == args@[i as int]@);
            }
            let decoded = crate::encoding::decode_arg(args[i].as_str());
            let m = self.recognized.len();
            let mut consumed = false;
            let mut j: usize = 0;
            while j < m
                invariant
                    0 <= j <= m,
                    consumed == exists|k: int| 0 <= k < j && rec[k] == decoded@,
                decreases m - j,
            {
                proof {
                    assert(rec[j as int] == self.recognized@[j as int]@);
                }
                if self.recognized[j] == decoded {
                    consumed = true;
                }
                j += 1;
            }
            proof {
                assert(consumed == rec.contains(decoded@));
                assert(decoded@ == payload(full[i as int]));
                assert(full.skip(i as int)[0] == full[i as int]);
                assert(full.skip(i as int).drop_first() =~= full.skip(i as int + 1));
            }
            if !consumed {
                let ghost kept0 = kept.deep_view();
                kept.push(args[i].clone());
                proof {
                    assert(kept.deep_view() =~= kept0.push(full[i as int]));
                    assert(kept0.push(full[i as int]) + retained(full.skip(i as int + 1), rec)
                        =~= kept0 + (seq![full[i as int]] + retained(
                        full.skip(i as int + 1),
                        rec,
                    )));
                }
            }
            i += 1;
        }
        proof {
            assert(full.skip(n as int) =~= Seq::<Seq<char>>::empty());
            assert(kept.deep_view() + Seq::<Seq<char>>::empty() =~= kept.deep_view());
        }
        *args = kept;
        self.flag_parse_log.push(n);
        proof {
            assert(self.flag_parse_log@.map_values(|x: usize| x as int) =~= old(
                self,
            ).flag_parse_log@.map_values(|x: usize| x as int).push(n as int));
            assert(self@ =~~= parse_model(old(self)@, n as int));
        }
    }

    /// Create a new isolated execution context; its identifier is the next
    /// creation index. The boundary documents no failure mode for this call.
    pub fn create(&mut self) -> (id: usize)
        requires
            old(self)@.wf(),
            old(self)@.initialized,
        ensures
            id as int == old(self)@.contexts.len(),
            final(self)@ == create_model(old(self)@),
            final(self)@.wf(),
            final(self)@.ctx_live(id as int),
    {
        let id = self.contexts.len();
        self.contexts.push(ContextState { live: true, last_exception: None });
        proof {
            assert(self.contexts@.map_values(|c: ContextState| c@) =~= old(
                self,
            ).contexts@.map_values(|c: ContextState| c@).push(fresh_ctx()));
            assert(self@ =~~= create_model(old(self)@));
            lemma_create_preserves_wf(old(self)@);
        }
        id
    }

    /// Delete a live context: valid exactly once, after which nothing may
    /// touch the context again.
    pub fn delete_context(&mut self, id: usize)
        requires
            old(self)@.wf(),
            old(self)@.ctx_live(id as int),
        ensures
            final(self)@ == delete_model(old(self)@, id as int),
            final(self)@.wf(),
            !final(self)@.ctx_live(id as int),
    {
        let kept_exception = match &self.contexts[id].last_exception {
            Some(s) => Some(s.clone()),
            None => None,
        };
        self.contexts[id] = ContextState { live: false, last_exception: kept_exception };
        self.delete_log.push(id);
        proof {
            let e = old(self)@;
            assert(self.contexts@.map_values(|c: ContextState| c@) =~= e.contexts.update(
                id as int,
                CtxModel { live: false, ..e.contexts[id as int] },
            ));
            assert(self.delete_log@.map_values(|x: usize| x as int) =~= e.delete_log.push(
                id as int,
            ));
            assert(self@ =~~= delete_model(e, id as int));
            lemma_delete_preserves_wf(e, id as int);
        }
    }

    /// The execute entry of the boundary: takes transport-encoded filename
    /// and source, runs the script against the context, pushing the script's
    /// messages through the channel in order, and reports the outcome as a
    /// boolean-like result — zero means an exception occurred, any other
    /// value success, and nothing more.
    #[verifier::loop_isolation(false)]
    pub fn raw_execute(
        &mut self,
        id: usize,
        filename_z: &str,
        source_z: &str,
        chan: &mut MessageChannel,
    ) -> (r: i32)
        requires
            old(self)@.wf(),
            old(self)@.initialized,
            old(self)@.ctx_live(id as int),
            wf_encoded(filename_z@),
            wf_encoded(source_z@),
        ensures
            final(self)@.wf(),
            final(self)@.ctx_live(id as int),
            ({
                let e = old(self)@;
                let fname = payload(filename_z@);
                let src = payload(source_z@);
                match find_behavior(e.behaviors, fname, src) {
                    Some(i) => {
                        &&& final(chan)@ == old(chan)@ + e.behaviors[i].sends
                        &&& (forall|k: int|
                            0 <= k < e.behaviors[i].sends.len() ==> (#[trigger] e.behaviors[
                                i
                            ].sends[k]).wf())
                        &&& (e.behaviors[i].throws ==> r == 0 && final(self)@ == throw_model(
                            e,
                            id as int,
                            e.behaviors[i].message,
                        ))
                        &&& (!e.behaviors[i].throws ==> r == 1 && final(self)@ == complete_model(
                            e,
                            id as int,
                        ))
                    },
                    None => {
                        &&& r == 1
                        &&& final(self)@ == complete_model(e, id as int)
                        &&& final(chan)@ == old(chan)@
                    },
                }
            }),
    {
        let ghost e = self@;
        let ghost chan0 = chan@;
        let fname = crate::encoding::decode_arg(filename_z);
        let src = crate::encoding::decode_arg(source_z);
        let n = self.behaviors.len();
        let mut pos: usize = n;
        let mut j: usize = 0;
        while j < n
            invariant
                0 <= j <= n,
                pos == n || 0 <= pos < j,
                pos < n ==> behavior_matches(e.behaviors[pos as int], fname@, src@),
                pos < n ==> forall|k: int|
                    0 <= k < pos ==> !behavior_matches(#[trigger] e.behaviors[k], fname@, src@),
                pos == n ==> forall|k: int|
                    0 <= k < j ==> !behavior_matches(#[trigger] e.behaviors[k], fname@, src@),
            decreases n - j,
        {
            proof {
                assert(e.behaviors[j as int] == self.behaviors@[j as int]@);
            }
            if pos == n {
                if self.behaviors[j].filename == fname && self.behaviors[j].source == src {
                    pos = j;
                }
            }
            j += 1;
        }
        proof {
            lemma_find_behavior(e.behaviors, fname@, src@);
            if pos < n {
                let found = find_behavior(e.behaviors, fname@, src@);
                if found is None {
                    assert(!behavior_matches(e.behaviors[pos as int], fname@, src@));
                }
                let i = found->Some_0;
                if i < pos {
                    assert(!behavior_matches(e.behaviors[i], fname@, src@));
                } else if pos < i {
                    assert(!behavior_matches(e.behaviors[pos as int], fname@, src@));
                }
                assert(found == Some(pos as int));
            } else {
                assert(find_behavior(e.behaviors, fname@, src@) is None);
            }
        }
        if pos < n {
            let throws = self.behaviors[pos].throws;
            let msg = self.behaviors[pos].message.clone();
            let m = self.behaviors[pos].sends.len();
            let mut k: usize = 0;
            while k < m
                invariant
                    0 <= k <= m,
                    chan@ == chan0 + e.behaviors[pos as int].sends.take(k as int),
                    forall|q: int|
                        0 <= q < k ==> (#[trigger] e.behaviors[pos as int].sends[q]).wf(),
                decreases m - k,
            {
                proof {
                    assert(e.behaviors[pos as int].sends[k as int] == self.behaviors@[pos as int].sends@[k as int]@);
                }
                chan.deliver(&self.behaviors[pos].sends[k]);
                proof {
                    assert((chan0 + e.behaviors[pos as int].sends.take(k as int)).push(
                        e.behaviors[pos as int].sends[k as int],
                    ) =~= chan0 + e.behaviors[pos as int].sends.take(k as int + 1));
                }
                k += 1;
            }
            proof {
                assert(e.behaviors[pos as int].sends.take(m as int) =~= e.behaviors[
                    pos as int
                ].sends);
            }
            self.execute_log.push(id);
            proof {
                assert(self.execute_log@.map_values(|x: usize| x as int) =~= e.execute_log.push(
                    id as int,
                ));
            }
            if throws {
                self.contexts[id] = ContextState { live: true, last_exception: Some(msg) };
                proof {
                    assert(self.contexts@.map_values(|c: ContextState| c@) =~= e.contexts.update(
                        id as int,
                        CtxModel {
                            last_exception: Some(e.behaviors[pos as int].message),
                            ..e.contexts[id as int]
                        },
                    ));
                    assert(self@ =~~= throw_model(e, id as int, e.behaviors[pos as int].message));
                    lemma_throw_preserves_wf(e, id as int, e.behaviors[pos as int].message);
                }
                0
            } else {
                proof {
                    assert(self@ =~~= complete_model(e, id as int));
                }
                1
            }
        } else {
            self.execute_log.push(id);
            proof {
                assert(self.execute_log@.map_values(|x: usize| x as int) =~= e.execute_log.push(
                    id as int,
                ));
                assert(self@ =~~= complete_model(e, id as int));
            }
            1
        }
    }

    /// The last-exception query: engine-owned text describing the last
    /// exception the context reported, or nothing if it never threw. The
    /// host copies the text out, as the real boundary demands.
    pub fn last_exception(&self, id: usize) -> (r: Option<String>)
        requires
            self@.ctx_live(id as int),
        ensures
            match self@.contexts[id as int].last_exception {
                Some(m) => r matches Some(s) && s@ == m,
                None => r is None,
            },
    {
        proof {
            assert(self@.contexts[id as int] == self.contexts@[id as int]@);
        }
        match &self.contexts[id].last_exception {
            Some(s) => Some(s.clone()),
            None => None,
        }
    }

    /// How many contexts were ever created.
    pub fn create_count(&self) -> (n: usize)
        ensures
            n as nat == self@.contexts.len(),
    {
        self.contexts.len()
    }

    /// How many delete calls the engine has seen.
    pub fn delete_count(&self) -> (n: usize)
        ensures
            n as nat == self@.delete_log.len(),
    {
        self.delete_log.len()
    }

    /// How many execute calls the engine has seen.
    pub fn execute_count(&self) -> (n: usize)
        ensures
            n as nat == self@.execute_log.len(),
    {
        self.execute_log.len()
    }

    /// How many flag-parser calls the engine has seen.
    pub fn flag_parse_count(&self) -> (n: usize)
        ensures
            n as nat == self@.flag_parse_log.len(),
    {
        self.flag_parse_log.len()
    }

    /// Whether context `id` exists and is live.
    pub fn is_live(&self, id: usize) -> (r: bool)
        ensures
            r == self@.ctx_live(id as int),
    {
        if id < self.contexts.len() {
            proof {
                assert(self@.contexts[id as int] == self.contexts@[id as int]@);
            }
            self.contexts[id].live
        } else {
            false
        }
    }
}

} // verus!
