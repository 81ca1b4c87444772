//! The network-free distributed run.
//!
//! [`epp_run_all`] executes the projection of *every* declared participant
//! in one process, step by step, moving each message through an in-memory
//! [`MessagePool`] and through the serialization codec — exactly what a set
//! of projectors over a transport would do, minus the wire.  Its contract is
//! the engine-equivalence theorem: at every location, the projected run
//! yields the value the central semantics assigns to that location — present
//! exactly where owned, equal to the centrally computed value wherever
//! present, and failing with the very same error otherwise.

use vstd::prelude::*;

use crate::choreo::{Choreography, ChoreoOp, LocalComputation, Program};
use crate::codec::{decode_value, encode_value, lemma_codec_round_trip, spec_encode};
use crate::error::ChorError;
use crate::located::MultiplyLocated;
use crate::location::{
    clone_names, contains_name, distinct_names_exec, find_name, names_eq, string_eq,
    subset_names_exec,
};
use crate::ownership::{oenv_view, owners_prog, OwnerEnv};
use crate::pool::MessagePool;
use crate::project::{lenv_oview, LocalEnv};
use crate::sem::{
    arg_vals, choreo_sem, erase, init_env, names_of, sem_op, sem_prog, CEnv, EntryModel,
};
use crate::value::{view_of, ValModel, Value};

verus! {

/// A projected environment agrees with a central environment at location
/// `p`: same variables bound, same owners, and the value present exactly
/// where `p` owns it, equal to the central value.
pub open spec fn lenv_matches(
    le: Seq<Option<(Vec<String>, Option<Value>)>>,
    ce: CEnv,
    p: Seq<char>,
) -> bool {
    le.len() == ce.len() && forall|j: int|
        0 <= j < le.len() ==> match (#[trigger] le[j], ce[j]) {
            (Option::None, Option::None) => true,
            (Option::Some(lp), Option::Some(e)) => names_of(lp.0@) == e.owners && ((lp.1 is Some)
                == e.owners.contains(p)) && (lp.1 is Some ==> view_of(lp.1.unwrap()) == e.val),
            _ => false,
        }
}

/// Every active participant's environment agrees with the central one.
pub open spec fn all_match(
    envs: Seq<LocalEnv>,
    parties: Seq<String>,
    active: Seq<Seq<char>>,
    ce: CEnv,
) -> bool {
    envs.len() == parties.len() && forall|k: int|
        0 <= k < parties.len() && active.contains((#[trigger] parties[k])@) ==> lenv_matches(
            envs[k]@,
            ce,
            parties[k]@,
        )
}

/// An agreeing environment has the owner image of the central one.
proof fn lemma_matches_oview(le: Seq<Option<(Vec<String>, Option<Value>)>>, ce: CEnv, p: Seq<char>)
    requires
        lenv_matches(le, ce, p),
    ensures
        lenv_oview(le) == erase(ce),
{
    assert forall|j: int| 0 <= j < le.len() implies lenv_oview(le)[j] == erase(ce)[j] by {
        assert(lenv_matches(le, ce, p));
        assert(match (le[j], ce[j]) {
            (Option::None, Option::None) => true,
            (Option::Some(lp), Option::Some(e)) => names_of(lp.0@) == e.owners,
            _ => false,
        });
    }
    assert(lenv_oview(le) =~= erase(ce));
}

/// Updating an agreeing environment with an agreeing entry keeps the
/// agreement.
proof fn lemma_matches_set(
    olde: Seq<Option<(Vec<String>, Option<Value>)>>,
    newe: Seq<Option<(Vec<String>, Option<Value>)>>,
    ce: CEnv,
    ce2: CEnv,
    p: Seq<char>,
    bind: int,
    ent: EntryModel,
    pr: (Vec<String>, Option<Value>),
)
    requires
        lenv_matches(olde, ce, p),
        ce2 == ce.update(bind, Option::Some(ent)),
        newe == olde.update(bind, Option::Some(pr)),
        0 <= bind < olde.len(),
        names_of(pr.0@) == ent.owners,
        (pr.1 is Some) == ent.owners.contains(p),
        pr.1 is Some ==> view_of(pr.1.unwrap()) == ent.val,
    ensures
        lenv_matches(newe, ce2, p),
{
    assert forall|j: int|
        0 <= j < newe.len() implies match (#[trigger] newe[j], ce2[j]) {
        (Option::None, Option::None) => true,
        (Option::Some(lp), Option::Some(e)) => names_of(lp.0@) == e.owners && ((lp.1 is Some)
            == e.owners.contains(p)) && (lp.1 is Some ==> view_of(lp.1.unwrap()) == e.val),
        _ => false,
    } by {
        if j != bind {
            assert(newe[j] == olde[j]);
            assert(ce2[j] == ce[j]);
            assert(lenv_matches(olde, ce, p));
        }
    }
}

/// A deep copy of a projected environment, equal at the level the agreement
/// predicate observes.
fn clone_matching(env: &LocalEnv) -> (r: LocalEnv)
    ensures
        forall|ce: CEnv, p: Seq<char>|
            lenv_matches(env@, ce, p) ==> #[trigger] lenv_matches(r@, ce, p),
{
    let n = env.len();
    let mut r: LocalEnv = Vec::new();
    let mut i: usize = 0;
    while i < n
        invariant
            i <= n,
            n == env@.len(),
            r@.len() == i,
            forall|j: int|
                0 <= j < i ==> match (#[trigger] r@[j], env@[j]) {
                    (Option::None, Option::None) => true,
                    (Option::Some(a), Option::Some(b)) => a.0@ == b.0@ && ((a.1 is Some) == (b.1
                        is Some)) && (a.1 is Some ==> view_of(a.1.unwrap()) == view_of(
                        b.1.unwrap(),
                    )),
                    _ => false,
                },
        decreases n - i,
    {
        match &env[i] {
            Option::Some(p) => {
                let vcopy: Option<Value> = match &p.1 {
                    Option::Some(v) => Option::Some(v.dup()),
                    Option::None => Option::None,
                };
                r.push(Option::Some((clone_names(&p.0), vcopy)));
            },
            Option::None => {
                r.push(Option::None);
            },
        }
        i = i + 1;
    }
    assert forall|ce: CEnv, p: Seq<char>|
        lenv_matches(env@, ce, p) implies #[trigger] lenv_matches(r@, ce, p) by {
        assert forall|j: int|
            0 <= j < r@.len() implies match (#[trigger] r@[j], ce[j]) {
            (Option::None, Option::None) => true,
            (Option::Some(lp), Option::Some(e)) => names_of(lp.0@) == e.owners && ((lp.1 is Some)
                == e.owners.contains(p)) && (lp.1 is Some ==> view_of(lp.1.unwrap()) == e.val),
            _ => false,
        } by {
            assert(lenv_matches(env@, ce, p));
            assert(match (env@[j], ce[j]) {
                (Option::None, Option::None) => true,
                (Option::Some(lp), Option::Some(e)) => names_of(lp.0@) == e.owners && ((lp.1
                    is Some) == e.owners.contains(p)) && (lp.1 is Some ==> view_of(lp.1.unwrap())
                    == e.val),
                _ => false,
            });
        }
    }
    r
}

/// Reads the value of a variable owned at `p` from an environment agreeing
/// with the central one.
fn read_central_value(env: &LocalEnv, v: usize, Ghost(ce): Ghost<CEnv>, Ghost(p): Ghost<Seq<char>>)
    -> (r: Value)
    requires
        lenv_matches(env@, ce, p),
        v < env@.len(),
        ce[v as int] is Some,
        ce[v as int].unwrap().owners.contains(p),
    ensures
        view_of(r) == ce[v as int].unwrap().val,
{
    match &env[v] {
        Option::Some(pr) => {
            match &pr.1 {
                Option::Some(val) => val.dup(),
                Option::None => {
                    assert(false);
                    vstd::pervasive::unreached()
                },
            }
        },
        Option::None => {
            assert(false);
            vstd::pervasive::unreached()
        },
    }
}

/// Gathers the values of the argument variables from the computing
/// location's environment, checking ownership.
fn gather_vals(env: &LocalEnv, args: &Vec<usize>, at: &String, Ghost(ce): Ghost<CEnv>) -> (r:
    Option<Vec<Value>>)
    requires
        lenv_matches(env@, ce, at@),
    ensures
        match r {
            Option::Some(vals) => crate::sem::args_ok_o(erase(ce), args@, at@)
                && vals@.map_values(|v: Value| view_of(v)) == arg_vals(ce, args@),
            Option::None => !crate::sem::args_ok_o(erase(ce), args@, at@),
        },
{
    proof {
        lemma_matches_oview(env@, ce, at@);
    }
    let n = args.len();
    let mut vals: Vec<Value> = Vec::new();
    let mut i: usize = 0;
    while i < n
        invariant
            lenv_matches(env@, ce, at@),
            lenv_oview(env@) == erase(ce),
            i <= n,
            n == args@.len(),
            vals@.len() == i,
            forall|j: int|
                0 <= j < i ==> (#[trigger] args@[j]) < erase(ce).len() && erase(ce)[args@[j] as int]
                    is Some && erase(ce)[args@[j] as int].unwrap().contains(at@),
            forall|j: int|
                0 <= j < i ==> view_of(#[trigger] vals@[j]) == ce[args@[j] as int].unwrap().val,
        decreases n - i,
    {
        let a = args[i];
        if a >= env.len() {
            return Option::None;
        }
        match &env[a] {
            Option::Some(p) => {
                assert(lenv_oview(env@)[a as int] == Option::Some(names_of(p.0@)));
                if !contains_name(&p.0, at) {
                    return Option::None;
                }
                match &p.1 {
                    Option::Some(v) => {
                        vals.push(v.dup());
                        assert(ce[a as int].unwrap().owners == names_of(p.0@));
                    },
                    Option::None => {
                        assert(false);
                    },
                }
            },
            Option::None => {
                assert(lenv_oview(env@)[a as int] is None);
                return Option::None;
            },
        }
        i = i + 1;
    }
    assert(vals@.map_values(|v: Value| view_of(v)) =~= arg_vals(ce, args@));
    Option::Some(vals)
}

/// A copy of an encoded message.
fn clone_words(w: &Vec<u64>) -> (r: Vec<u64>)
    ensures
        r@ == w@,
{
    let n = w.len();
    let mut r: Vec<u64> = Vec::new();
    let mut i: usize = 0;
    while i < n
        invariant
            i <= n,
            n == w@.len(),
            r@.len() == i,
            forall|j: int| 0 <= j < i ==> r@[j] == w@[j],
        decreases n - i,
    {
        r.push(w[i]);
        i = i + 1;
    }
    assert(r@ =~= w@);
    r
}

/// Sends an encoded value through the pool from `from` to `to` and receives
/// and decodes it again on the addressee's side.
fn pool_round_trip(
    pool: &mut MessagePool,
    from: &String,
    to: &String,
    words: &Vec<u64>,
    Ghost(m): Ghost<ValModel>,
) -> (r: Value)
    requires
        old(pool).msgs().len() == 0,
        words@ == spec_encode(m),
        crate::codec::wf_model(m),
    ensures
        final(pool).msgs().len() == 0,
        view_of(r) == m,
{
    let w = clone_words(words);
    pool.send(from, to, w);
    let bytes = pool.recv(from, to);
    proof {
        lemma_codec_round_trip(m, Seq::<u64>::empty());
        assert(spec_encode(m) + Seq::<u64>::empty() =~= spec_encode(m));
    }
    match decode_value(&bytes) {
        Option::Some(v) => v,
        Option::None => {
            proof {
                assert(false);
            }
            Value::Unit
        },
    }
}

/// Replaces one participant's environment with a copy updated at `bind`,
/// preserving its agreement with the stepped central environment.
fn set_party_env(
    envs: &mut Vec<LocalEnv>,
    k: usize,
    bind: usize,
    owners: &Vec<String>,
    vopt: Option<Value>,
    Ghost(ce): Ghost<CEnv>,
    Ghost(ent): Ghost<EntryModel>,
    Ghost(p): Ghost<Seq<char>>,
)
    requires
        k < old(envs)@.len(),
        bind < old(envs)@[k as int]@.len(),
        lenv_matches(old(envs)@[k as int]@, ce, p),
        names_of(owners@) == ent.owners,
        (vopt is Some) == ent.owners.contains(p),
        vopt is Some ==> view_of(vopt.unwrap()) == ent.val,
    ensures
        final(envs)@.len() == old(envs)@.len(),
        forall|j: int| 0 <= j < old(envs)@.len() && j != k ==> final(envs)@[j] == old(envs)@[j],
        lenv_matches(
            final(envs)@[k as int]@,
            ce.update(bind as int, Option::Some(ent)),
            p,
        ),
{
    let mut newe = clone_matching(&envs[k]);
    assert(lenv_matches(newe@, ce, p));
    let ghost cloned = newe@;
    let oscopy = clone_names(owners);
    newe.set(bind, Option::Some((oscopy, vopt)));
    proof {
        lemma_matches_set(
            cloned,
            newe@,
            ce,
            ce.update(bind as int, Option::Some(ent)),
            p,
            bind as int,
            ent,
            (oscopy, vopt),
        );
    }
    envs.set(k, newe);
}

/// A deep copy of every participant's environment.
fn clone_all(envs: &Vec<LocalEnv>) -> (r: Vec<LocalEnv>)
    ensures
        r@.len() == envs@.len(),
        forall|k: int, ce: CEnv, p: Seq<char>|
            0 <= k < envs@.len() && lenv_matches(envs@[k]@, ce, p)
                ==> #[trigger] lenv_matches(r@[k]@, ce, p),
{
    let n = envs.len();
    let mut r: Vec<LocalEnv> = Vec::new();
    let mut i: usize = 0;
    while i < n
        invariant
            i <= n,
            n == envs@.len(),
            r@.len() == i,
            forall|k: int, ce: CEnv, p: Seq<char>|
                0 <= k < i && lenv_matches(envs@[k]@, ce, p) ==> #[trigger] lenv_matches(
                    r@[k]@,
                    ce,
                    p,
                ),
        decreases n - i,
    {
        r.push(clone_matching(&envs[i]));
        i = i + 1;
    }
    r
}

/// Runs one operation of every active participant's projection, in
/// lockstep, against the message pool.
#[verifier::loop_isolation(false)]
#[verifier::rlimit(100)]
fn lock_op<C: LocalComputation>(
    op: &ChoreoOp<C>,
    active: &Vec<String>,
    parties: &Vec<String>,
    envs: &mut Vec<LocalEnv>,
    pool: &mut MessagePool,
    Ghost(ce): Ghost<CEnv>,
) -> (r: Result<(), ChorError>)
    requires
        active@.len() > 0,
        crate::sem::names_subset(names_of(active@), names_of(parties@)),
        crate::sem::names_distinct(names_of(parties@)),
        old(envs)@.len() == parties@.len(),
        all_match(old(envs)@, parties@, names_of(active@), ce),
        old(pool).msgs().len() == 0,
    ensures
        final(envs)@.len() == parties@.len(),
        final(pool).msgs().len() == 0,
        match (r, sem_op(*op, names_of(active@), ce)) {
            (Result::Ok(()), Result::Ok(ce2)) => all_match(
                final(envs)@,
                parties@,
                names_of(active@),
                ce2,
            ),
            (Result::Err(a), Result::Err(b)) => a == b,
            _ => false,
        },
    decreases *op,
{
    let i0 = match find_name(parties, &active[0]) {
        Option::Some(k) => k,
        Option::None => {
            proof {
                assert(names_of(active@)[0] == active@[0]@);
                assert(names_of(parties@).contains(names_of(active@)[0]));
            }
            vstd::pervasive::unreached()
        },
    };
    proof {
        assert(names_of(active@)[0] == active@[0]@);
        assert(names_of(active@).contains(names_of(parties@)[i0 as int]));
        assert(lenv_matches(envs@[i0 as int]@, ce, parties@[i0 as int]@));
        lemma_matches_oview(envs@[i0 as int]@, ce, parties@[i0 as int]@);
    }
    let ghost p0: Seq<char> = parties@[i0 as int]@;
    match op {
        ChoreoOp::Locally { bind, at, comp, args } => {
            if *bind >= envs[i0].len() {
                return Result::Err(ChorError::BadVariable);
            }
            if !contains_name(active, at) {
                return Result::Err(ChorError::ParticipantNotDeclared);
            }
            let ka = match find_name(parties, at) {
                Option::Some(k) => k,
                Option::None => vstd::pervasive::unreached(),
            };
            proof {
                assert(names_of(active@).contains(names_of(parties@)[ka as int]));
                assert(lenv_matches(envs@[ka as int]@, ce, at@));
            }
            match gather_vals(&envs[ka], args, at, Ghost(ce)) {
                Option::Some(vals) => {
                    let result = comp.apply(&vals);
                    let ghost ce2 = sem_op(*op, names_of(active@), ce).unwrap();
                    let ghost ent = EntryModel {
                        owners: seq![at@],
                        val: comp.spec_apply(arg_vals(ce, args@)),
                    };
                    let mut os: Vec<String> = Vec::new();
                    os.push(at.clone());
                    assert(names_of(os@) =~= seq![at@]);
                    let np = parties.len();
                    let mut k: usize = 0;
                    while k < np
                        invariant
                            envs@.len() == np,
                            pool.msgs().len() == 0,
                            k <= np,
                            forall|j: int|
                                0 <= j < k && names_of(active@).contains((#[trigger] parties@[j])@)
                                    ==> lenv_matches(envs@[j]@, ce2, parties@[j]@),
                            forall|j: int|
                                k <= j < np && names_of(active@).contains((#[trigger] parties@[j])@)
                                    ==> lenv_matches(envs@[j]@, ce, parties@[j]@),
                        decreases np - k,
                    {
                        if contains_name(active, &parties[k]) {
                            let here = string_eq(&parties[k], at);
                            let vopt: Option<Value> = if here {
                                Option::Some(result.dup())
                            } else {
                                Option::None
                            };
                            proof {
                                crate::sem::lemma_singleton_contains(at@, parties@[k as int]@);
                            }
                            set_party_env(
                                envs,
                                k,
                                *bind,
                                &os,
                                vopt,
                                Ghost(ce),
                                Ghost(ent),
                                Ghost(parties@[k as int]@),
                            );
                        }
                        k = k + 1;
                    }
                    Result::Ok(())
                },
                Option::None => Result::Err(ChorError::AbsentValue),
            }
        },
        ChoreoOp::Comm { bind, from, to, arg } => {
            if *bind >= envs[i0].len() {
                return Result::Err(ChorError::BadVariable);
            }
            if !contains_name(active, from) || !contains_name(active, to) {
                return Result::Err(ChorError::ParticipantNotDeclared);
            }
            if !crate::project::check_var_l(&envs[i0], *arg, from) {
                return Result::Err(ChorError::AbsentValue);
            }
            let ks = match find_name(parties, from) {
                Option::Some(k) => k,
                Option::None => vstd::pervasive::unreached(),
            };
            proof {
                assert(names_of(active@).contains(names_of(parties@)[ks as int]));
                assert(lenv_matches(envs@[ks as int]@, ce, from@));
            }
            let vs = read_central_value(&envs[ks], *arg, Ghost(ce), Ghost(from@));
            let words = encode_value(&vs);
            let self_comm = string_eq(from, to);
            let ghost ce2 = sem_op(*op, names_of(active@), ce).unwrap();
            let ghost ent = EntryModel { owners: seq![to@], val: ce[*arg as int].unwrap().val };
            let mut os: Vec<String> = Vec::new();
            os.push(to.clone());
            assert(names_of(os@) =~= seq![to@]);
            let np = parties.len();
            let mut k: usize = 0;
            while k < np
                invariant
                    envs@.len() == np,
                    pool.msgs().len() == 0,
                    k <= np,
                    forall|j: int|
                        0 <= j < k && names_of(active@).contains((#[trigger] parties@[j])@)
                            ==> lenv_matches(envs@[j]@, ce2, parties@[j]@),
                    forall|j: int|
                        k <= j < np && names_of(active@).contains((#[trigger] parties@[j])@)
                            ==> lenv_matches(envs@[j]@, ce, parties@[j]@),
                decreases np - k,
            {
                if contains_name(active, &parties[k]) {
                    let is_to = string_eq(&parties[k], to);
                    let vopt: Option<Value> = if is_to {
                        if self_comm {
                            Option::Some(crate::codec::value_round_trip(&vs))
                        } else {
                            Option::Some(
                                pool_round_trip(pool, from, to, &words, Ghost(view_of(vs))),
                            )
                        }
                    } else {
                        Option::None
                    };
                    proof {
                        crate::sem::lemma_singleton_contains(to@, parties@[k as int]@);
                    }
                    set_party_env(
                        envs,
                        k,
                        *bind,
                        &os,
                        vopt,
                        Ghost(ce),
                        Ghost(ent),
                        Ghost(parties@[k as int]@),
                    );
                }
                k = k + 1;
            }
            Result::Ok(())
        },
        ChoreoOp::Broadcast { bind, from, arg } => {
            if *bind >= envs[i0].len() {
                return Result::Err(ChorError::BadVariable);
            }
            if !contains_name(active, from) {
                return Result::Err(ChorError::ParticipantNotDeclared);
            }
            if !crate::project::check_var_l(&envs[i0], *arg, from) {
                return Result::Err(ChorError::AbsentValue);
            }
            let ks = match find_name(parties, from) {
                Option::Some(k) => k,
                Option::None => vstd::pervasive::unreached(),
            };
            proof {
                assert(names_of(active@).contains(names_of(parties@)[ks as int]));
                assert(lenv_matches(envs@[ks as int]@, ce, from@));
            }
            let vs = read_central_value(&envs[ks], *arg, Ghost(ce), Ghost(from@));
            let words = encode_value(&vs);
            let ghost ce2 = sem_op(*op, names_of(active@), ce).unwrap();
            let ghost ent = EntryModel {
                owners: names_of(active@),
                val: ce[*arg as int].unwrap().val,
            };
            let os = clone_names(active);
            let np = parties.len();
            let mut k: usize = 0;
            while k < np
                invariant
                    envs@.len() == np,
                    pool.msgs().len() == 0,
                    k <= np,
                    forall|j: int|
                        0 <= j < k && names_of(active@).contains((#[trigger] parties@[j])@)
                            ==> lenv_matches(envs@[j]@, ce2, parties@[j]@),
                    forall|j: int|
                        k <= j < np && names_of(active@).contains((#[trigger] parties@[j])@)
                            ==> lenv_matches(envs@[j]@, ce, parties@[j]@),
                decreases np - k,
            {
                if contains_name(active, &parties[k]) {
                    let is_from = string_eq(&parties[k], from);
                    let vopt: Option<Value> = if is_from {
                        Option::Some(vs.dup())
                    } else {
                        Option::Some(
                            pool_round_trip(pool, from, &parties[k], &words, Ghost(view_of(vs))),
                        )
                    };
                    set_party_env(
                        envs,
                        k,
                        *bind,
                        &os,
                        vopt,
                        Ghost(ce),
                        Ghost(ent),
                        Ghost(parties@[k as int]@),
                    );
                }
                k = k + 1;
            }
            Result::Ok(())
        },
        ChoreoOp::Multicast { bind, from, dests, arg } => {
            if *bind >= envs[i0].len() {
                return Result::Err(ChorError::BadVariable);
            }
            if !contains_name(active, from) || !subset_names_exec(dests, active) {
                return Result::Err(ChorError::ParticipantNotDeclared);
            }
            if !crate::project::check_var_l(&envs[i0], *arg, from) {
                return Result::Err(ChorError::AbsentValue);
            }
            let ks = match find_name(parties, from) {
                Option::Some(k) => k,
                Option::None => vstd::pervasive::unreached(),
            };
            proof {
                assert(names_of(active@).contains(names_of(parties@)[ks as int]));
                assert(lenv_matches(envs@[ks as int]@, ce, from@));
            }
            let vs = read_central_value(&envs[ks], *arg, Ghost(ce), Ghost(from@));
            let words = encode_value(&vs);
            let ghost ce2 = sem_op(*op, names_of(active@), ce).unwrap();
            let ghost ent = EntryModel {
                owners: crate::sem::owners_with(names_of(dests@), from@),
                val: ce[*arg as int].unwrap().val,
            };
            let mut os = clone_names(dests);
            if !contains_name(dests, from) {
                os.push(from.clone());
                assert(names_of(os@) =~= names_of(dests@).push(from@));
            }
            assert(names_of(os@) == crate::sem::owners_with(names_of(dests@), from@));
            let np = parties.len();
            let mut k: usize = 0;
            while k < np
                invariant
                    envs@.len() == np,
                    pool.msgs().len() == 0,
                    k <= np,
                    forall|j: int|
                        0 <= j < k && names_of(active@).contains((#[trigger] parties@[j])@)
                            ==> lenv_matches(envs@[j]@, ce2, parties@[j]@),
                    forall|j: int|
                        k <= j < np && names_of(active@).contains((#[trigger] parties@[j])@)
                            ==> lenv_matches(envs@[j]@, ce, parties@[j]@),
                decreases np - k,
            {
                if contains_name(active, &parties[k]) {
                    let is_from = string_eq(&parties[k], from);
                    let vopt: Option<Value> = if is_from {
                        Option::Some(crate::codec::value_round_trip(&vs))
                    } else if contains_name(dests, &parties[k]) {
                        Option::Some(
                            pool_round_trip(pool, from, &parties[k], &words, Ghost(view_of(vs))),
                        )
                    } else {
                        Option::None
                    };
                    proof {
                        crate::sem::lemma_owners_with_contains(
                            names_of(dests@),
                            from@,
                            parties@[k as int]@,
                        );
                    }
                    set_party_env(
                        envs,
                        k,
                        *bind,
                        &os,
                        vopt,
                        Ghost(ce),
                        Ghost(ent),
                        Ghost(parties@[k as int]@),
                    );
                }
                k = k + 1;
            }
            Result::Ok(())
        },
        ChoreoOp::Enclave { bind, parties: eparties, body } => {
            if *bind >= envs[i0].len() {
                return Result::Err(ChorError::BadVariable);
            }
            if !subset_names_exec(eparties, active) || !distinct_names_exec(eparties) {
                return Result::Err(ChorError::ParticipantNotDeclared);
            }
            if eparties.len() == 0 {
                let mut oenv = crate::project::owners_of_lenv(&envs[i0]);
                proof {
                    crate::sem::lemma_prog_erase(**body, names_of(eparties@), ce);
                }
                match owners_prog(body, eparties, &mut oenv) {
                    Result::Ok(ro) => {
                        if !subset_names_exec(&ro, eparties) {
                            return Result::Err(ChorError::EnclaveResultEscapes);
                        }
                        let ghost ce2 = sem_op(*op, names_of(active@), ce).unwrap();
                        let ghost ent = sem_prog(**body, names_of(eparties@), ce).unwrap().1;
                        let np = parties.len();
                        let mut k: usize = 0;
                        while k < np
                            invariant
                                envs@.len() == np,
                                pool.msgs().len() == 0,
                                k <= np,
                                forall|j: int|
                                    0 <= j < k && names_of(active@).contains(
                                        (#[trigger] parties@[j])@,
                                    ) ==> lenv_matches(envs@[j]@, ce2, parties@[j]@),
                                forall|j: int|
                                    k <= j < np && names_of(active@).contains(
                                        (#[trigger] parties@[j])@,
                                    ) ==> lenv_matches(envs@[j]@, ce, parties@[j]@),
                            decreases np - k,
                        {
                            if contains_name(active, &parties[k]) {
                                proof {
                                    crate::sem::lemma_subset_not_contains(
                                        names_of(ro@),
                                        names_of(eparties@),
                                        parties@[k as int]@,
                                    );
                                }
                                set_party_env(
                                    envs,
                                    k,
                                    *bind,
                                    &ro,
                                    Option::None,
                                    Ghost(ce),
                                    Ghost(ent),
                                    Ghost(parties@[k as int]@),
                                );
                            }
                            k = k + 1;
                        }
                        Result::Ok(())
                    },
                    Result::Err(e) => Result::Err(e),
                }
            } else {
                let mut benvs = clone_all(envs);
                proof {
                    assert forall|l: Seq<char>|
                        names_of(eparties@).contains(l) implies #[trigger] names_of(
                        parties@,
                    ).contains(l) by {
                        let i = choose|i: int|
                            0 <= i < names_of(eparties@).len() && names_of(eparties@)[i] == l;
                        assert(names_of(active@).contains(names_of(eparties@)[i]));
                        let j = choose|j: int|
                            0 <= j < names_of(active@).len() && names_of(active@)[j] == l;
                        assert(names_of(parties@).contains(names_of(active@)[j]));
                    }
                    assert(all_match(benvs@, parties@, names_of(eparties@), ce));
                }
                match lock_prog(body, eparties, parties, &mut benvs, pool, Ghost(ce)) {
                    Result::Ok((ro, mut vals)) => {
                        if !subset_names_exec(&ro, eparties) {
                            return Result::Err(ChorError::EnclaveResultEscapes);
                        }
                        let ghost ce2 = sem_op(*op, names_of(active@), ce).unwrap();
                        let ghost ent = sem_prog(**body, names_of(eparties@), ce).unwrap().1;
                        let ghost vals0 = vals@;
                        let np = parties.len();
                        let mut k: usize = 0;
                        while k < np
                            invariant
                                envs@.len() == np,
                                pool.msgs().len() == 0,
                                k <= np,
                                vals@ == vals0.skip(k as int),
                                forall|j: int|
                                    0 <= j < k && names_of(active@).contains(
                                        (#[trigger] parties@[j])@,
                                    ) ==> lenv_matches(envs@[j]@, ce2, parties@[j]@),
                                forall|j: int|
                                    k <= j < np && names_of(active@).contains(
                                        (#[trigger] parties@[j])@,
                                    ) ==> lenv_matches(envs@[j]@, ce, parties@[j]@),
                            decreases np - k,
                        {
                            assert(vals0.skip(k as int)[0] == vals0[k as int]);
                            let v = vals.remove(0);
                            assert(vals@ =~= vals0.skip(k + 1));
                            if contains_name(active, &parties[k]) {
                                let vopt: Option<Value>;
                                if contains_name(eparties, &parties[k]) {
                                    vopt = v;
                                } else {
                                    proof {
                                        crate::sem::lemma_subset_not_contains(
                                            names_of(ro@),
                                            names_of(eparties@),
                                            parties@[k as int]@,
                                        );
                                    }
                                    vopt = Option::None;
                                    assert(v is None);
                                }
                                set_party_env(
                                    envs,
                                    k,
                                    *bind,
                                    &ro,
                                    vopt,
                                    Ghost(ce),
                                    Ghost(ent),
                                    Ghost(parties@[k as int]@),
                                );
                            }
                            k = k + 1;
                        }
                        Result::Ok(())
                    },
                    Result::Err(e) => Result::Err(e),
                }
            }
        },
        ChoreoOp::Branch { bind, cond, then_prog, else_prog } => {
            if *bind >= envs[i0].len() || *cond >= envs[i0].len() {
                return Result::Err(ChorError::BadVariable);
            }
            let cond_owners: Vec<String> = match &envs[i0][*cond] {
                Option::Some(p) => clone_names(&p.0),
                Option::None => {
                    assert(lenv_oview(envs@[i0 as int]@)[*cond as int] is None);
                    return Result::Err(ChorError::BadVariable);
                },
            };
            assert(erase(ce)[*cond as int] == Option::Some(names_of(cond_owners@)));
            if !subset_names_exec(active, &cond_owners) {
                return Result::Err(ChorError::UnsharedGuard);
            }
            let mut o1 = crate::project::owners_of_lenv(&envs[i0]);
            let mut o2 = crate::project::owners_of_lenv(&envs[i0]);
            let r1 = owners_prog(then_prog, active, &mut o1);
            match r1 {
                Result::Ok(ro1) => {
                    let r2 = owners_prog(else_prog, active, &mut o2);
                    match r2 {
                        Result::Ok(ro2) => {
                            if !names_eq(&ro1, &ro2) {
                                return Result::Err(ChorError::DivergentBranches);
                            }
                            proof {
                                assert(names_of(active@).contains(p0));
                                assert(ce[*cond as int].unwrap().owners.contains(p0));
                            }
                            let gv = read_central_value(
                                &envs[i0],
                                *cond,
                                Ghost(ce),
                                Ghost(p0),
                            );
                            let guard = crate::value::guard_of(&gv);
                            let mut benvs = clone_all(envs);
                            proof {
                                assert(all_match(benvs@, parties@, names_of(active@), ce));
                            }
                            let rb = if guard {
                                lock_prog(then_prog, active, parties, &mut benvs, pool, Ghost(ce))
                            } else {
                                lock_prog(else_prog, active, parties, &mut benvs, pool, Ghost(ce))
                            };
                            match rb {
                                Result::Ok((ro, mut vals)) => {
                                    let ghost ce2 = sem_op(*op, names_of(active@), ce).unwrap();
                                    let ghost taken: Program<C> = if crate::value::spec_guard(
                                        ce[*cond as int].unwrap().val,
                                    ) {
                                        **then_prog
                                    } else {
                                        **else_prog
                                    };
                                    let ghost ent = sem_prog(
                                        taken,
                                        names_of(active@),
                                        ce,
                                    ).unwrap().1;
                                    let ghost vals0 = vals@;
                                    let np = parties.len();
                                    let mut k: usize = 0;
                                    while k < np
                                        invariant
                                            envs@.len() == np,
                                            pool.msgs().len() == 0,
                                            k <= np,
                                            vals@ == vals0.skip(k as int),
                                            forall|j: int|
                                                0 <= j < k && names_of(active@).contains(
                                                    (#[trigger] parties@[j])@,
                                                ) ==> lenv_matches(envs@[j]@, ce2, parties@[j]@),
                                            forall|j: int|
                                                k <= j < np && names_of(active@).contains(
                                                    (#[trigger] parties@[j])@,
                                                ) ==> lenv_matches(envs@[j]@, ce, parties@[j]@),
                                        decreases np - k,
                                    {
                                        assert(vals0.skip(k as int)[0] == vals0[k as int]);
                                        let v = vals.remove(0);
                                        assert(vals@ =~= vals0.skip(k + 1));
                                        if contains_name(active, &parties[k]) {
                                            set_party_env(
                                                envs,
                                                k,
                                                *bind,
                                                &ro,
                                                v,
                                                Ghost(ce),
                                                Ghost(ent),
                                                Ghost(parties@[k as int]@),
                                            );
                                        }
                                        k = k + 1;
                                    }
                                    Result::Ok(())
                                },
                                Result::Err(e) => Result::Err(e),
                            }
                        },
                        Result::Err(e) => Result::Err(e),
                    }
                },
                Result::Err(e) => Result::Err(e),
            }
        },
    }
}

/// Runs a program of every active participant's projection in lockstep,
/// returning the owners of the result and each participant's copy of it.
#[verifier::loop_isolation(false)]
fn lock_prog<C: LocalComputation>(
    p: &Program<C>,
    active: &Vec<String>,
    parties: &Vec<String>,
    envs: &mut Vec<LocalEnv>,
    pool: &mut MessagePool,
    Ghost(ce): Ghost<CEnv>,
) -> (r: Result<(Vec<String>, Vec<Option<Value>>), ChorError>)
    requires
        active@.len() > 0,
        crate::sem::names_subset(names_of(active@), names_of(parties@)),
        crate::sem::names_distinct(names_of(parties@)),
        old(envs)@.len() == parties@.len(),
        all_match(old(envs)@, parties@, names_of(active@), ce),
        old(pool).msgs().len() == 0,
    ensures
        final(envs)@.len() == parties@.len(),
        final(pool).msgs().len() == 0,
        match (r, sem_prog(*p, names_of(active@), ce)) {
            (Result::Ok((ro, vals)), Result::Ok((ce2, ent))) => all_match(
                final(envs)@,
                parties@,
                names_of(active@),
                ce2,
            ) && names_of(ro@) == ent.owners && vals@.len() == parties@.len() && (forall|k: int|
                0 <= k < parties@.len() && names_of(active@).contains((#[trigger] parties@[k])@)
                    ==> (((vals@[k] is Some) == ent.owners.contains(parties@[k]@)) && (vals@[k]
                    is Some ==> view_of(vals@[k].unwrap()) == ent.val))) && (forall|k: int|
                0 <= k < parties@.len() && !names_of(active@).contains((#[trigger] parties@[k])@)
                    ==> vals@[k] is None),
            (Result::Err(a), Result::Err(b)) => a == b,
            _ => false,
        },
    decreases *p,
{
    let i0 = match find_name(parties, &active[0]) {
        Option::Some(k) => k,
        Option::None => {
            proof {
                assert(names_of(active@)[0] == active@[0]@);
                assert(names_of(parties@).contains(names_of(active@)[0]));
            }
            vstd::pervasive::unreached()
        },
    };
    proof {
        assert(names_of(active@)[0] == active@[0]@);
        assert(names_of(active@).contains(names_of(parties@)[i0 as int]));
        assert(lenv_matches(envs@[i0 as int]@, ce, parties@[i0 as int]@));
    }
    match p {
        Program::Ret(v) => {
            if *v >= envs[i0].len() {
                return Result::Err(ChorError::BadVariable);
            }
            let ro: Vec<String> = match &envs[i0][*v] {
                Option::Some(pr) => clone_names(&pr.0),
                Option::None => {
                    return Result::Err(ChorError::BadVariable);
                },
            };
            let ghost ent = ce[*v as int].unwrap();
            assert(names_of(ro@) == ent.owners);
            let np = parties.len();
            let mut vals: Vec<Option<Value>> = Vec::new();
            let mut k: usize = 0;
            while k < np
                invariant
                    k <= np,
                    vals@.len() == k,
                    forall|j: int|
                        0 <= j < k && names_of(active@).contains((#[trigger] parties@[j])@) ==> ((
                        (vals@[j] is Some) == ent.owners.contains(parties@[j]@)) && (vals@[j]
                            is Some ==> view_of(vals@[j].unwrap()) == ent.val)),
                    forall|j: int|
                        0 <= j < k && !names_of(active@).contains((#[trigger] parties@[j])@)
                            ==> vals@[j] is None,
                decreases np - k,
            {
                if contains_name(active, &parties[k]) {
                    proof {
                        assert(lenv_matches(envs@[k as int]@, ce, parties@[k as int]@));
                    }
                    match &envs[k][*v] {
                        Option::Some(pr) => {
                            match &pr.1 {
                                Option::Some(val) => {
                                    vals.push(Option::Some(val.dup()));
                                },
                                Option::None => {
                                    vals.push(Option::None);
                                },
                            }
                        },
                        Option::None => {
                            proof {
                                assert(false);
                            }
                            vals.push(Option::None);
                        },
                    }
                } else {
                    vals.push(Option::None);
                }
                k = k + 1;
            }
            Result::Ok((ro, vals))
        },
        Program::Then(op, rest) => match lock_op(op, active, parties, envs, pool, Ghost(ce)) {
            Result::Ok(()) => {
                let ghost ce2 = sem_op(*op, names_of(active@), ce).unwrap();
                lock_prog(rest, active, parties, envs, pool, Ghost(ce2))
            },
            Result::Err(e) => Result::Err(e),
        },
    }
}

/// Runs the projection of every declared participant in one process,
/// exchanging messages through an in-memory pool, and returns each
/// participant's located copy of the result.
///
/// This is the engine-equivalence law: on the same inputs, the distributed
/// run agrees with the central semantics — and hence with `Runner::run` — at
/// every location.  The result is present exactly at the locations that own
/// it, it equals the central value wherever present, and a failing run fails
/// with the very error the central semantics gives.
#[verifier::loop_isolation(false)]
pub fn epp_run_all<C: LocalComputation>(
    choreo: &Choreography<C>,
    inputs: Vec<MultiplyLocated<Value>>,
) -> (r: Result<Vec<(String, MultiplyLocated<Value>)>, ChorError>)
    ensures
        ((forall|i: int| 0 <= i < inputs@.len() ==> (#[trigger] inputs@[i]).is_present())
            && choreo.parties@.len() > 0) ==> match (
            r,
            choreo_sem(*choreo, crate::runner::input_models(inputs@)),
        ) {
            (Result::Ok(outs), Result::Ok((_e2, ent))) => outs@.len() == choreo.parties@.len()
                && forall|k: int|
                0 <= k < outs@.len() ==> ((#[trigger] outs@[k]).0@ == names_of(choreo.parties@)[k]
                    && (outs@[k].1.is_present() == ent.owners.contains(
                    names_of(choreo.parties@)[k],
                )) && (outs@[k].1.is_present() ==> view_of(outs@[k].1.opt().unwrap()) == ent.val)),
            (Result::Err(a), Result::Err(b)) => a == b,
            _ => false,
        },
{
    let ghost models = crate::runner::input_models(inputs@);
    let nd = choreo.inputs.len();
    if inputs.len() != nd {
        return Result::Err(ChorError::InputMismatch);
    }
    let mut kk: usize = 0;
    while kk < nd
        invariant
            kk <= nd,
            nd == inputs@.len(),
            forall|i: int| 0 <= i < kk ==> (#[trigger] inputs@[i]).is_present(),
        decreases nd - kk,
    {
        if !inputs[kk].has_value() {
            return Result::Err(ChorError::InputMismatch);
        }
        kk = kk + 1;
    }
    if choreo.parties.len() == 0 {
        return Result::Err(ChorError::ParticipantNotDeclared);
    }
    if !distinct_names_exec(&choreo.parties) {
        return Result::Err(ChorError::ParticipantNotDeclared);
    }
    // Take the input values out of their wrappers.
    let mut inputs = inputs;
    let mut vals_in: Vec<Value> = Vec::new();
    let ghost orig_inputs = inputs@;
    let mut d: usize = 0;
    while d < nd
        invariant
            d <= nd,
            nd == orig_inputs.len(),
            nd == models.len(),
            inputs@ == orig_inputs.skip(d as int),
            forall|i: int| 0 <= i < nd ==> (#[trigger] orig_inputs[i]).is_present(),
            vals_in@.len() == d,
            forall|i: int| 0 <= i < d ==> view_of(#[trigger] vals_in@[i]) == models[i],
        decreases nd - d,
    {
        assert(orig_inputs.skip(d as int)[0] == orig_inputs[d as int]);
        let ml = inputs.remove(0);
        assert(inputs@ =~= orig_inputs.skip(d + 1));
        vals_in.push(ml.into_value());
        d = d + 1;
    }
    // Validate the input declarations, replaying the initial environment.
    let ghost blank: CEnv = Seq::new(choreo.n_vars as nat, |j: int| Option::None::<EntryModel>);
    let ghost mut ceinit: CEnv = blank;
    assert(choreo.inputs@.skip(0) =~= choreo.inputs@);
    assert(models.skip(0) =~= models);
    let mut d2: usize = 0;
    while d2 < nd
        invariant
            d2 <= nd,
            nd == choreo.inputs@.len(),
            nd == models.len(),
            ceinit.len() == choreo.n_vars as nat,
            init_env(names_of(choreo.parties@), choreo.inputs@, models, blank) == init_env(
                names_of(choreo.parties@),
                choreo.inputs@.skip(d2 as int),
                models.skip(d2 as int),
                ceinit,
            ),
        decreases nd - d2,
    {
        let decl = &choreo.inputs[d2];
        proof {
            assert(choreo.inputs@.skip(d2 as int)[0] == choreo.inputs@[d2 as int]);
            assert(models.skip(d2 as int)[0] == models[d2 as int]);
        }
        if decl.var >= choreo.n_vars {
            return Result::Err(ChorError::BadVariable);
        }
        if !subset_names_exec(&decl.owners, &choreo.parties) {
            return Result::Err(ChorError::ParticipantNotDeclared);
        }
        proof {
            assert(choreo.inputs@.skip(d2 as int).drop_first() =~= choreo.inputs@.skip(d2 + 1));
            assert(models.skip(d2 as int).drop_first() =~= models.skip(d2 + 1));
            ceinit = ceinit.update(
                decl.var as int,
                Option::Some(EntryModel { owners: names_of(decl.owners@), val: models[d2 as int] }),
            );
        }
        d2 = d2 + 1;
    }
    assert(choreo.inputs@.skip(nd as int) =~= Seq::<crate::choreo::InputDecl>::empty());
    assert(models.skip(nd as int) =~= Seq::<ValModel>::empty());
    assert(init_env(names_of(choreo.parties@), choreo.inputs@, models, blank) == Result::<
        CEnv,
        ChorError,
    >::Ok(ceinit));
    // Build one projected environment per participant.
    let np = choreo.parties.len();
    let mut envs: Vec<LocalEnv> = Vec::new();
    let mut k: usize = 0;
    while k < np
        invariant
            k <= np,
            np == choreo.parties@.len(),
            nd == choreo.inputs@.len(),
            nd == models.len(),
            nd == vals_in@.len(),
            ceinit.len() == choreo.n_vars as nat,
            forall|i: int| 0 <= i < nd ==> view_of(#[trigger] vals_in@[i]) == models[i],
            init_env(names_of(choreo.parties@), choreo.inputs@, models, blank) == Result::<
                CEnv,
                ChorError,
            >::Ok(ceinit),
            envs@.len() == k,
            forall|j: int|
                0 <= j < k ==> lenv_matches((#[trigger] envs@[j])@, ceinit, choreo.parties@[j]@),
        decreases np - k,
    {
        let mut env: LocalEnv = Vec::new();
        let mut i: usize = 0;
        while i < choreo.n_vars
            invariant
                i <= choreo.n_vars,
                env@.len() == i,
                forall|j: int| 0 <= j < i ==> env@[j] is None,
            decreases choreo.n_vars - i,
        {
            env.push(Option::None);
            i = i + 1;
        }
        let ghost mut cd: CEnv = blank;
        assert(lenv_matches(env@, cd, choreo.parties@[k as int]@));
        let mut d3: usize = 0;
        while d3 < nd
            invariant
                d3 <= nd,
                env@.len() == choreo.n_vars as nat,
                cd.len() == choreo.n_vars as nat,
                k < np,
                lenv_matches(env@, cd, choreo.parties@[k as int]@),
                init_env(
                    names_of(choreo.parties@),
                    choreo.inputs@.skip(d3 as int),
                    models.skip(d3 as int),
                    cd,
                ) == Result::<CEnv, ChorError>::Ok(ceinit),
            decreases nd - d3,
        {
            let decl = &choreo.inputs[d3];
            proof {
                assert(choreo.inputs@.skip(d3 as int)[0] == choreo.inputs@[d3 as int]);
                assert(models.skip(d3 as int)[0] == models[d3 as int]);
                assert(choreo.inputs@.skip(d3 as int).drop_first() =~= choreo.inputs@.skip(d3 + 1));
                assert(models.skip(d3 as int).drop_first() =~= models.skip(d3 + 1));
            }
            let owned_here = contains_name(&decl.owners, &choreo.parties[k]);
            let vopt: Option<Value> = if owned_here {
                Option::Some(vals_in[d3].dup())
            } else {
                Option::None
            };
            let ghost ent = EntryModel {
                owners: names_of(decl.owners@),
                val: models[d3 as int],
            };
            let ghost cdold = cd;
            let oscopy = clone_names(&decl.owners);
            let ghost envold = env@;
            env.set(decl.var, Option::Some((oscopy, vopt)));
            proof {
                cd = cd.update(decl.var as int, Option::Some(ent));
                lemma_matches_set(
                    envold,
                    env@,
                    cdold,
                    cd,
                    choreo.parties@[k as int]@,
                    decl.var as int,
                    ent,
                    (oscopy, vopt),
                );
            }
            d3 = d3 + 1;
        }
        proof {
            assert(choreo.inputs@.skip(nd as int) =~= Seq::<crate::choreo::InputDecl>::empty());
            assert(models.skip(nd as int) =~= Seq::<ValModel>::empty());
            assert(cd == ceinit);
        }
        envs.push(env);
        k = k + 1;
    }
    // Run every projection in lockstep.
    let mut pool = MessagePool::new();
    proof {
        assert forall|l: Seq<char>|
            names_of(choreo.parties@).contains(l) implies #[trigger] names_of(
            choreo.parties@,
        ).contains(l) by {}
        assert forall|j: int|
            0 <= j < choreo.parties@.len() implies names_of(choreo.parties@).contains(
            (#[trigger] choreo.parties@[j])@,
        ) by {
            assert(names_of(choreo.parties@)[j] == choreo.parties@[j]@);
        }
        assert(all_match(envs@, choreo.parties@, names_of(choreo.parties@), ceinit));
    }
    match lock_prog(
        &choreo.body,
        &choreo.parties,
        &choreo.parties,
        &mut envs,
        &mut pool,
        Ghost(ceinit),
    ) {
        Result::Ok((_ro, vals)) => {
            let mut vals = vals;
            let ghost vals0 = vals@;
            let mut outs: Vec<(String, MultiplyLocated<Value>)> = Vec::new();
            let mut k2: usize = 0;
            while k2 < np
                invariant
                    k2 <= np,
                    np == choreo.parties@.len(),
                    vals0.len() == np,
                    vals@ == vals0.skip(k2 as int),
                    outs@.len() == k2,
                    forall|j: int|
                        0 <= j < k2 ==> ((#[trigger] outs@[j]).0@ == choreo.parties@[j]@
                            && outs@[j].1.is_present() == vals0[j] is Some && (vals0[j] is Some
                            ==> outs@[j].1.opt() == vals0[j])),
                decreases np - k2,
            {
                assert(vals0.skip(k2 as int)[0] == vals0[k2 as int]);
                let v = vals.remove(0);
                assert(vals@ =~= vals0.skip(k2 + 1));
                let ml: MultiplyLocated<Value> = match v {
                    Option::Some(value) => MultiplyLocated::local(value),
                    Option::None => MultiplyLocated::remote(),
                };
                outs.push((choreo.parties[k2].clone(), ml));
                k2 = k2 + 1;
            }
            proof {
                assert forall|j: int|
                    0 <= j < np implies names_of(choreo.parties@)[j] == (
                #[trigger] choreo.parties@[j])@ by {}
            }
            Result::Ok(outs)
        },
        Result::Err(e) => Result::Err(e),
    }
}

} // verus!
