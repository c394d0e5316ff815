//! The flag partitioner.
//!
//! The host hands its whole argument list, transport-encoded, to the
//! engine's own flag parser, which removes the arguments it recognizes in
//! place; the host then decodes what survived. The partition leaves the
//! surviving arguments in their original relative order, which is proved
//! below as an explicit order-preserving selection.

use vstd::prelude::*;
use vstd::string::*;
use crate::encoding::encodable;
use crate::encoding::encode_arg;
use crate::encoding::decode_arg;
use crate::encoding::encoded;
use crate::encoding::lemma_encode_round_trip;
use crate::encoding::payload;
use crate::encoding::wf_encoded;
use crate::engine::lemma_retained_elements;
use crate::engine::parse_model;
use crate::engine::retained;
use crate::engine::ModelEngine;
use crate::outcome::HostError;

verus! {

/// Every argument can cross the boundary.
pub open spec fn all_encodable(args: Seq<Seq<char>>) -> bool {
    forall|i: int| 0 <= i < args.len() ==> encodable(#[trigger] args[i])
}

/// The transport forms of all arguments, in order.
pub open spec fn encoded_all(args: Seq<Seq<char>>) -> Seq<Seq<char>> {
    args.map_values(|s: Seq<char>| encoded(s))
}

/// What the partition leaves for the host: the arguments, in their original
/// order, whose text the engine does not recognize as one of its flags.
pub open spec fn remaining_args(args: Seq<Seq<char>>, recognized: Seq<Seq<char>>) -> Seq<Seq<char>>
    decreases args.len(),
{
    if args.len() == 0 {
        Seq::empty()
    } else if recognized.contains(args[0]) {
        remaining_args(args.drop_first(), recognized)
    } else {
        seq![args[0]] + remaining_args(args.drop_first(), recognized)
    }
}

/// Encoding, parsing and decoding lose nothing: what the parser retains of
/// the transport forms, decoded again, is exactly the host's remaining
/// arguments.
pub proof fn lemma_partition_round_trip(args: Seq<Seq<char>>, recognized: Seq<Seq<char>>)
    requires
        all_encodable(args),
    ensures
        retained(encoded_all(args), recognized).map_values(|t: Seq<char>| payload(t))
            == remaining_args(args, recognized),
    decreases args.len(),
{
    let enc = encoded_all(args);
    let pay = |t: Seq<char>| payload(t);
    if args.len() == 0 {
        assert(enc.len() == 0);
        assert(retained(enc, recognized).map_values(pay) =~= remaining_args(args, recognized));
    } else {
        let rest = args.drop_first();
        lemma_partition_round_trip(rest, recognized);
        lemma_encode_round_trip(args[0]);
        assert(enc[0] == encoded(args[0]));
        assert(enc.drop_first() =~= encoded_all(rest));
        assert(payload(enc[0]) == args[0]);
        if recognized.contains(payload(enc[0])) {
            assert(retained(enc, recognized) == retained(encoded_all(rest), recognized));
        } else {
            assert(retained(enc, recognized) == seq![enc[0]] + retained(
                encoded_all(rest),
                recognized,
            ));
            assert((seq![enc[0]] + retained(encoded_all(rest), recognized)).map_values(pay)
                =~= seq![args[0]] + retained(encoded_all(rest), recognized).map_values(pay));
        }
    }
}

/// `at` names positions of `full`, strictly increasing, and `sub` is exactly
/// the elements of `full` at those positions: `sub` lists some of `full`'s
/// elements in `full`'s own order.
pub open spec fn selects(sub: Seq<Seq<char>>, full: Seq<Seq<char>>, at: Seq<int>) -> bool {
    &&& at.len() == sub.len()
    &&& (forall|k: int| 0 <= k < at.len() ==> 0 <= #[trigger] at[k] < full.len())
    &&& (forall|k: int| 0 <= k < at.len() ==> sub[k] == full[#[trigger] at[k]])
    &&& (forall|k: int| 0 <= k < at.len() - 1 ==> #[trigger] at[k] < at[k + 1])
}

/// The remaining arguments appear in the output in the same relative order
/// as in the input: they are an order-preserving selection from it.
pub proof fn lemma_partition_preserves_order(args: Seq<Seq<char>>, recognized: Seq<Seq<char>>)
    ensures
        exists|at: Seq<int>| selects(remaining_args(args, recognized), args, at),
    decreases args.len(),
{
    let sub = remaining_args(args, recognized);
    if args.len() == 0 {
        let at = Seq::<int>::empty();
        assert(selects(sub, args, at));
    } else {
        let rest = args.drop_first();
        lemma_partition_preserves_order(rest, recognized);
        let sub_rest = remaining_args(rest, recognized);
        let at_rest = choose|at: Seq<int>| selects(sub_rest, rest, at);
        let shifted = at_rest.map_values(|x: int| x + 1);
        if recognized.contains(args[0]) {
            assert forall|k: int| 0 <= k < shifted.len() implies sub[k] == args[#[trigger] shifted[k]] by {
                assert(sub[k] == sub_rest[k]);
                assert(sub_rest[k] == rest[at_rest[k]]);
                assert(rest[at_rest[k]] == args[at_rest[k] + 1]);
            }
            assert(selects(sub, args, shifted));
        } else {
            let at = seq![0int] + shifted;
            assert forall|k: int| 0 <= k < at.len() implies sub[k] == args[#[trigger] at[k]] by {
                if k == 0 {
                    assert(sub[0] == args[0]);
                } else {
                    assert(at[k] == at_rest[k - 1] + 1);
                    assert(sub[k] == sub_rest[k - 1]);
                    assert(sub_rest[k - 1] == rest[at_rest[k - 1]]);
                    assert(rest[at_rest[k - 1]] == args[at_rest[k - 1] + 1]);
                }
            }
            assert forall|k: int| 0 <= k < at.len() - 1 implies #[trigger] at[k] < at[k + 1] by {
                if k == 0 {
                    assert(at[0] == 0);
                    assert(at[1] == at_rest[0] + 1);
                } else {
                    assert(at[k] == at_rest[k - 1] + 1);
                    assert(at[k + 1] == at_rest[k] + 1);
                }
            }
            assert(selects(sub, args, at));
        }
    }
}

/// Partition the argument list: encode every argument for the boundary —
/// rejecting any with an embedded nul before the engine is called at all —
/// let the engine's parser strip the flags it recognizes, and decode what
/// survived, in order.
#[verifier::loop_isolation(false)]
pub fn partition_flags(engine: &mut ModelEngine, args: &Vec<String>) -> (r: Result<
    Vec<String>,
    HostError,
>)
    requires
        old(engine)@.initialized,
    ensures
        ({
            let argsv = args.deep_view();
            let rec = old(engine)@.recognized;
            if all_encodable(argsv) {
                &&& r matches Ok(rem) && rem.deep_view() == remaining_args(argsv, rec)
                &&& final(engine)@ == parse_model(old(engine)@, argsv.len() as int)
            } else {
                &&& r == Err::<Vec<String>, HostError>(HostError::EncodingError)
                &&& final(engine)@ == old(engine)@
            }
        }),
{
    let ghost argsv = args.deep_view();
    let ghost rec = engine@.recognized;
    let mut zargs: Vec<String> = Vec::new();
    let n = args.len();
    let mut i: usize = 0;
    proof {
        assert(zargs.deep_view() =~= encoded_all(argsv.take(0)));
    }
    while i < n
        invariant
            0 <= i <= n,
            zargs.deep_view() == encoded_all(argsv.take(i as int)),
            forall|k: int| 0 <= k < i ==> encodable(#[trigger] argsv[k]),
        decreases n - i,
    {
        proof {
            assert(argsv[i as int] == args@[i as int]@);
        }
        match encode_arg(args[i].as_str()) {
            Ok(z) => {
                let ghost z0 = zargs.deep_view();
                zargs.push(z);
                proof {
                    assert(zargs.deep_view() =~= z0.push(encoded(argsv[i as int])));
                    assert(z0.push(encoded(argsv[i as int])) =~= encoded_all(
                        argsv.take(i as int + 1),
                    ));
                }
            },
            Err(err) => {
                return Err(err);
            },
        }
        i += 1;
    }
    proof {
        assert(argsv.take(n as int) =~= argsv);
        assert(forall|k: int|
            0 <= k < zargs.deep_view().len() ==> #[trigger] zargs.deep_view()[k] == encoded(
                argsv[k],
            ));
        assert forall|k: int| 0 <= k < zargs@.len() implies wf_encoded(#[trigger] zargs@[k]@) by {
            assert(zargs@[k]@ == zargs.deep_view()[k]);
            lemma_encode_round_trip(argsv[k]);
        }
    }
    let ghost e_parsed = parse_model(engine@, argsv.len() as int);
    engine.parse_flags(&mut zargs);
    let ghost kept = retained(encoded_all(argsv), rec);
    proof {
        lemma_retained_elements(encoded_all(argsv), rec);
        assert forall|k: int| 0 <= k < kept.len() implies wf_encoded(#[trigger] kept[k]) by {
            let q = choose|q: int| 0 <= q < encoded_all(argsv).len() && encoded_all(argsv)[q]
                == kept[k];
            lemma_encode_round_trip(argsv[q]);
        }
    }
    let mut rem: Vec<String> = Vec::new();
    let m = zargs.len();
    let mut j: usize = 0;
    proof {
        assert(rem.deep_view() =~= kept.take(0).map_values(|t: Seq<char>| payload(t)));
    }
    while j < m
        invariant
            0 <= j <= m,
            rem.deep_view() == kept.take(j as int).map_values(|t: Seq<char>| payload(t)),
        decreases m - j,
    {
        proof {
            assert(zargs@[j as int]@ == zargs.deep_view()[j as int]);
            assert(kept[j as int] == zargs.deep_view()[j as int]);
        }
        let d = decode_arg(zargs[j].as_str());
        let ghost r0 = rem.deep_view();
        rem.push(d);
        proof {
            assert(rem.deep_view() =~= r0.push(payload(kept[j as int])));
            assert(r0.push(payload(kept[j as int])) =~= kept.take(j as int + 1).map_values(
                |t: Seq<char>| payload(t),
            ));
        }
        j += 1;
    }
    proof {
        assert(kept.take(m as int) =~= kept);
        lemma_partition_round_trip(argsv, rec);
    }
    Ok(rem)
}

} // verus!
