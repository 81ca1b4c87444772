//! The endpoint projector.
//!
//! `Projector::epp_and_run` executes, for one target location, exactly that
//! target's share of a choreography: its own local computations, one send per
//! message it owes and one receive per message it is owed, and nothing at all
//! for the steps of others.  It is verified against the ownership semantics
//! [`crate::sem::osem_prog`]: every declaration defect is detected exactly as
//! the semantics says, before the operation touches the transport, and a
//! value is present at the target exactly when the semantics says the target
//! owns it — presence is a pure function of the program text, never of
//! timing or of received data.

use vstd::prelude::*;

use crate::choreo::{Choreography, ChoreoOp, LocalComputation, Program};
use crate::error::ChorError;
use crate::located::MultiplyLocated;
use crate::location::{
    clone_names, contains_name, distinct_names_exec, names_eq, string_eq, subset_names_exec,
    ChoreographyLocation,
};
use crate::ownership::{oenv_view, owners_prog, OwnerEnv};
use crate::sem::{names_of, osem_op, osem_prog, OEnv};
use crate::transport::Transport;
use crate::value::{view_of, Value};

verus! {

/// The executable form of a projected environment: each bound variable holds
/// its owners and, where the target is among them, the value.
pub type LocalEnv = Vec<Option<(Vec<String>, Option<Value>)>>;

/// The ownership image of a projected environment.
pub open spec fn lenv_oview(e: Seq<Option<(Vec<String>, Option<Value>)>>) -> OEnv {
    e.map_values(
        |o: Option<(Vec<String>, Option<Value>)>|
            match o {
                Option::Some(p) => Option::Some(names_of(p.0@)),
                Option::None => Option::None,
            },
    )
}

/// Well-formedness of a projected environment at a target: a bound variable
/// holds a value exactly when the target is among its owners.
pub open spec fn penv_wf(e: Seq<Option<(Vec<String>, Option<Value>)>>, target: Seq<char>) -> bool {
    forall|j: int|
        0 <= j < e.len() ==> ((#[trigger] e[j]) is Some ==> ((e[j].unwrap().1 is Some) <==> names_of(
            e[j].unwrap().0@,
        ).contains(target)))
}

/// Updating a well-formed environment with a well-formed entry keeps it
/// well formed.
proof fn lemma_wf_set(
    old_e: Seq<Option<(Vec<String>, Option<Value>)>>,
    new_e: Seq<Option<(Vec<String>, Option<Value>)>>,
    target: Seq<char>,
    bind: int,
    p: (Vec<String>, Option<Value>),
)
    requires
        penv_wf(old_e, target),
        new_e == old_e.update(bind, Option::Some(p)),
        0 <= bind < old_e.len(),
        (p.1 is Some) == names_of(p.0@).contains(target),
    ensures
        penv_wf(new_e, target),
{
    assert forall|j: int| 0 <= j < new_e.len() implies ((#[trigger] new_e[j]) is Some ==> ((
    new_e[j].unwrap().1 is Some) <==> names_of(new_e[j].unwrap().0@).contains(target))) by {
        if j != bind {
            assert(new_e[j] == old_e[j]);
        }
    }
}

/// A copy of a projected environment.
fn clone_lenv(env: &LocalEnv) -> (r: LocalEnv)
    ensures
        lenv_oview(r@) == lenv_oview(env@),
        forall|j: int|
            0 <= j < env@.len() ==> ((#[trigger] r@[j]) is Some == env@[j] is Some && (r@[j] is Some
                ==> (r@[j].unwrap().1 is Some == env@[j].unwrap().1 is Some && r@[j].unwrap().0@
                == env@[j].unwrap().0@))),
{
    let n = env.len();
    let mut r: LocalEnv = Vec::new();
    let mut i: usize = 0;
    while i < n
        invariant
            i <= n,
            n == env@.len(),
            r@.len() == i,
            forall|j: int| 0 <= j < i ==> lenv_oview(r@)[j] == lenv_oview(env@)[j],
            forall|j: int|
                0 <= j < i ==> ((#[trigger] r@[j]) is Some == env@[j] is Some && (r@[j] is Some
                    ==> (r@[j].unwrap().1 is Some == env@[j].unwrap().1 is Some && r@[j].unwrap().0@
                    == env@[j].unwrap().0@))),
        decreases n - i,
    {
        let ghost prev = r@;
        match &env[i] {
            Option::Some(p) => {
                let vcopy: Option<Value> = match &p.1 {
                    Option::Some(v) => Option::Some(v.dup()),
                    Option::None => Option::None,
                };
                r.push(Option::Some((clone_names(&p.0), vcopy)));
            },
            Option::None => {
                r.push(Option::None);
            },
        }
        assert forall|j: int| 0 <= j < i + 1 implies lenv_oview(r@)[j] == lenv_oview(env@)[j] by {
            if j < i {
                assert(lenv_oview(prev)[j] == lenv_oview(env@)[j]);
                assert(r@[j] == prev[j]);
            }
        }
        i = i + 1;
    }
    assert(lenv_oview(r@) =~= lenv_oview(env@));
    r
}

/// The owner sets of a projected environment.
pub(crate) fn owners_of_lenv(env: &LocalEnv) -> (r: OwnerEnv)
    ensures
        oenv_view(r@) == lenv_oview(env@),
{
    let n = env.len();
    let mut r: OwnerEnv = Vec::new();
    let mut i: usize = 0;
    while i < n
        invariant
            i <= n,
            n == env@.len(),
            r@.len() == i,
            forall|j: int| 0 <= j < i ==> oenv_view(r@)[j] == lenv_oview(env@)[j],
        decreases n - i,
    {
        let ghost prev = r@;
        match &env[i] {
            Option::Some(p) => {
                r.push(Option::Some(clone_names(&p.0)));
            },
            Option::None => {
                r.push(Option::None);
            },
        }
        assert forall|j: int| 0 <= j < i + 1 implies oenv_view(r@)[j] == lenv_oview(env@)[j] by {
            if j < i {
                assert(oenv_view(prev)[j] == lenv_oview(env@)[j]);
                assert(r@[j] == prev[j]);
            }
        }
        i = i + 1;
    }
    assert(oenv_view(r@) =~= lenv_oview(env@));
    r
}

/// Checks that a variable is bound and owned at `at`.
pub(crate) fn check_var_l(env: &LocalEnv, v: usize, at: &String) -> (r: bool)
    ensures
        r == crate::sem::var_ok_o(lenv_oview(env@), v, at@),
{
    if v >= env.len() {
        return false;
    }
    match &env[v] {
        Option::Some(p) => {
            assert(lenv_oview(env@)[v as int] == Option::Some(names_of(p.0@)));
            contains_name(&p.0, at)
        },
        Option::None => {
            assert(lenv_oview(env@)[v as int] is None);
            false
        },
    }
}

/// Checks the arguments of a `locally` and, when the target is the computing
/// location, gathers their values.
fn gather_args_l(env: &LocalEnv, args: &Vec<usize>, at: &String, here: bool, target: &String) -> (r:
    Option<Vec<Value>>)
    requires
        penv_wf(env@, target@),
        here ==> at@ == target@,
    ensures
        (r is Some) == crate::sem::args_ok_o(lenv_oview(env@), args@, at@),
    decreases args@.len(),
{
    let n = args.len();
    let mut vals: Vec<Value> = Vec::new();
    let mut i: usize = 0;
    while i < n
        invariant
            penv_wf(env@, target@),
            here ==> at@ == target@,
            i <= n,
            n == args@.len(),
            forall|j: int|
                0 <= j < i ==> (#[trigger] args@[j]) < lenv_oview(env@).len() && lenv_oview(
                    env@,
                )[args@[j] as int] is Some && lenv_oview(env@)[args@[j] as int].unwrap().contains(
                    at@,
                ),
        decreases n - i,
    {
        let a = args[i];
        if a >= env.len() {
            return Option::None;
        }
        match &env[a] {
            Option::Some(p) => {
                assert(lenv_oview(env@)[a as int] == Option::Some(names_of(p.0@)));
                if !contains_name(&p.0, at) {
                    return Option::None;
                }
                if here {
                    assert(names_of(p.0@).contains(target@));
                    match &p.1 {
                        Option::Some(v) => {
                            vals.push(v.dup());
                        },
                        Option::None => {
                            assert(false);
                        },
                    }
                }
            },
            Option::None => {
                assert(lenv_oview(env@)[a as int] is None);
                return Option::None;
            },
        }
        i = i + 1;
    }
    Option::Some(vals)
}

/// Reads the value of a variable that the target owns: the result is the
/// target's own held copy, its image unchanged.  This is what the projector
/// hands to the transport when the target is the sender of an operation.
fn read_own_value(env: &LocalEnv, v: usize, target: &String) -> (r: Value)
    requires
        penv_wf(env@, target@),
        crate::sem::var_ok_o(lenv_oview(env@), v, target@),
    ensures
        env@[v as int].unwrap().1 is Some,
        view_of(r) == view_of(env@[v as int].unwrap().1.unwrap()),
{
    match &env[v] {
        Option::Some(p) => {
            assert(lenv_oview(env@)[v as int] == Option::Some(names_of(p.0@)));
            match &p.1 {
                Option::Some(val) => val.dup(),
                Option::None => {
                    assert(false);
                    vstd::pervasive::unreached()
                },
            }
        },
        Option::None => {
            assert(lenv_oview(env@)[v as int] is None);
            vstd::pervasive::unreached()
        },
    }
}

/// Runs one operation of the projection at `target`.
#[verifier::loop_isolation(false)]
#[verifier::rlimit(100)]
fn proj_op<C: LocalComputation, T: Transport>(
    op: &ChoreoOp<C>,
    active: &Vec<String>,
    target: &String,
    tp: &T,
    env: &mut LocalEnv,
) -> (r: Result<(), ChorError>)
    requires
        names_of(active@).contains(target@),
        penv_wf(old(env)@, target@),
        forall|l: Seq<char>|
            names_of(active@).contains(l) ==> #[trigger] tp.spec_locations().contains(l),
    ensures
        match (r, osem_op(*op, names_of(active@), lenv_oview(old(env)@))) {
            (Result::Ok(()), Result::Ok(e2)) => lenv_oview(final(env)@) == e2 && penv_wf(
                final(env)@,
                target@,
            ),
            (Result::Err(a), Result::Err(b)) => a == b || a == ChorError::TransportFailure || a
                == ChorError::SerializationFailure,
            (Result::Err(a), Result::Ok(_)) => a == ChorError::TransportFailure || a
                == ChorError::SerializationFailure,
            _ => false,
        },
    decreases *op,
{
    match op {
        ChoreoOp::Locally { bind, at, comp, args } => {
            if *bind >= env.len() {
                return Result::Err(ChorError::BadVariable);
            }
            if !contains_name(active, at) {
                return Result::Err(ChorError::ParticipantNotDeclared);
            }
            let here = string_eq(at, target);
            match gather_args_l(env, args, at, here, target) {
                Option::Some(vals) => {
                    let vopt: Option<Value> = if here {
                        Option::Some(comp.apply(&vals))
                    } else {
                        Option::None
                    };
                    let mut os: Vec<String> = Vec::new();
                    os.push(at.clone());
                    assert(names_of(os@) =~= seq![at@]);
                    proof {
                        crate::sem::lemma_singleton_contains(at@, target@);
                        assert(names_of(os@).contains(target@) == (at@ == target@));
                        lemma_wf_set(old(env)@, old(env)@.update(*bind as int, Option::Some((os, vopt))), target@, *bind as int, (os, vopt));
                    }
                    env.set(*bind, Option::Some((os, vopt)));
                    assert(lenv_oview(env@) =~= lenv_oview(old(env)@).update(
                        *bind as int,
                        Option::Some(seq![at@]),
                    ));
                    Result::Ok(())
                },
                Option::None => Result::Err(ChorError::AbsentValue),
            }
        },
        ChoreoOp::Comm { bind, from, to, arg } => {
            if *bind >= env.len() {
                return Result::Err(ChorError::BadVariable);
            }
            if !contains_name(active, from) || !contains_name(active, to) {
                return Result::Err(ChorError::ParticipantNotDeclared);
            }
            if !check_var_l(env, *arg, from) {
                return Result::Err(ChorError::AbsentValue);
            }
            let sender = string_eq(from, target);
            let receiver = string_eq(to, target);
            let vopt: Option<Value>;
            if sender && receiver {
                let v = read_own_value(env, *arg, target);
                vopt = Option::Some(crate::codec::value_round_trip(&v));
            } else if sender {
                let v = read_own_value(env, *arg, target);
                match tp.send(from, to, &v) {
                    Result::Ok(()) => {},
                    Result::Err(e) => {
                        return Result::Err(e);
                    },
                }
                vopt = Option::None;
            } else if receiver {
                match tp.receive(from, to) {
                    Result::Ok(v) => {
                        vopt = Option::Some(v);
                    },
                    Result::Err(e) => {
                        return Result::Err(e);
                    },
                }
            } else {
                vopt = Option::None;
            }
            let mut os: Vec<String> = Vec::new();
            os.push(to.clone());
            assert(names_of(os@) =~= seq![to@]);
            proof {
                crate::sem::lemma_singleton_contains(to@, target@);
                assert((vopt is Some) == names_of(os@).contains(target@));
                lemma_wf_set(old(env)@, old(env)@.update(*bind as int, Option::Some((os, vopt))), target@, *bind as int, (os, vopt));
            }
            env.set(*bind, Option::Some((os, vopt)));
            assert(lenv_oview(env@) =~= lenv_oview(old(env)@).update(
                *bind as int,
                Option::Some(seq![to@]),
            ));
            Result::Ok(())
        },
        ChoreoOp::Broadcast { bind, from, arg } => {
            if *bind >= env.len() {
                return Result::Err(ChorError::BadVariable);
            }
            if !contains_name(active, from) {
                return Result::Err(ChorError::ParticipantNotDeclared);
            }
            if !check_var_l(env, *arg, from) {
                return Result::Err(ChorError::AbsentValue);
            }
            let v: Value;
            if string_eq(from, target) {
                let own = read_own_value(env, *arg, target);
                let n = active.len();
                let mut i: usize = 0;
                while i < n
                    invariant
                        i <= n,
                    decreases n - i,
                {
                    let dest = &active[i];
                    assert(names_of(active@)[i as int] == active@[i as int]@);
                    if !string_eq(dest, target) {
                        match tp.send(from, dest, &own) {
                            Result::Ok(()) => {},
                            Result::Err(e) => {
                                return Result::Err(e);
                            },
                        }
                    }
                    i = i + 1;
                }
                v = own;
            } else {
                match tp.receive(from, target) {
                    Result::Ok(rv) => {
                        v = rv;
                    },
                    Result::Err(e) => {
                        return Result::Err(e);
                    },
                }
            }
            let os = clone_names(active);
            proof {
                assert(names_of(os@).contains(target@));
                lemma_wf_set(old(env)@, old(env)@.update(*bind as int, Option::Some((os, Option::Some(v)))), target@, *bind as int, (os, Option::Some(v)));
            }
            env.set(*bind, Option::Some((os, Option::Some(v))));
            assert(lenv_oview(env@) =~= lenv_oview(old(env)@).update(
                *bind as int,
                Option::Some(names_of(active@)),
            ));
            Result::Ok(())
        },
        ChoreoOp::Multicast { bind, from, dests, arg } => {
            if *bind >= env.len() {
                return Result::Err(ChorError::BadVariable);
            }
            if !contains_name(active, from) || !subset_names_exec(dests, active) {
                return Result::Err(ChorError::ParticipantNotDeclared);
            }
            if !check_var_l(env, *arg, from) {
                return Result::Err(ChorError::AbsentValue);
            }
            let vopt: Option<Value>;
            if string_eq(from, target) {
                let own = read_own_value(env, *arg, target);
                let n = dests.len();
                let mut i: usize = 0;
                while i < n
                    invariant
                        i <= n,
                    decreases n - i,
                {
                    let dest = &dests[i];
                    assert(names_of(dests@)[i as int] == dests@[i as int]@);
                    assert(names_of(active@).contains(names_of(dests@)[i as int]));
                    if !string_eq(dest, target) {
                        match tp.send(from, dest, &own) {
                            Result::Ok(()) => {},
                            Result::Err(e) => {
                                return Result::Err(e);
                            },
                        }
                    }
                    i = i + 1;
                }
                vopt = Option::Some(crate::codec::value_round_trip(&own));
            } else if contains_name(dests, target) {
                match tp.receive(from, target) {
                    Result::Ok(rv) => {
                        vopt = Option::Some(rv);
                    },
                    Result::Err(e) => {
                        return Result::Err(e);
                    },
                }
            } else {
                vopt = Option::None;
            }
            let mut os = clone_names(dests);
            if !contains_name(dests, from) {
                os.push(from.clone());
                assert(names_of(os@) =~= names_of(dests@).push(from@));
            }
            assert(names_of(os@) == crate::sem::owners_with(names_of(dests@), from@));
            proof {
                crate::sem::lemma_owners_with_contains(names_of(dests@), from@, target@);
                assert((vopt is Some) == names_of(os@).contains(target@));
                lemma_wf_set(old(env)@, old(env)@.update(*bind as int, Option::Some((os, vopt))), target@, *bind as int, (os, vopt));
            }
            env.set(*bind, Option::Some((os, vopt)));
            assert(lenv_oview(env@) =~= lenv_oview(old(env)@).update(
                *bind as int,
                Option::Some(crate::sem::owners_with(names_of(dests@), from@)),
            ));
            Result::Ok(())
        },
        ChoreoOp::Enclave { bind, parties, body } => {
            if *bind >= env.len() {
                return Result::Err(ChorError::BadVariable);
            }
            if !subset_names_exec(parties, active) || !distinct_names_exec(parties) {
                return Result::Err(ChorError::ParticipantNotDeclared);
            }
            if contains_name(parties, target) {
                let mut benv = clone_lenv(env);
                assert(penv_wf(benv@, target@));
                match proj_prog(body, parties, target, tp, &mut benv) {
                    Result::Ok((os, vopt)) => {
                        if !subset_names_exec(&os, parties) {
                            return Result::Err(ChorError::EnclaveResultEscapes);
                        }
                        proof {
                            lemma_wf_set(old(env)@, old(env)@.update(*bind as int, Option::Some((os, vopt))), target@, *bind as int, (os, vopt));
                        }
                        env.set(*bind, Option::Some((os, vopt)));
                        assert(lenv_oview(env@) =~= lenv_oview(old(env)@).update(
                            *bind as int,
                            osem_op(
                                *op,
                                names_of(active@),
                                lenv_oview(old(env)@),
                            ).unwrap()[*bind as int],
                        ));
                        Result::Ok(())
                    },
                    Result::Err(e) => Result::Err(e),
                }
            } else {
                let mut benv = owners_of_lenv(env);
                match owners_prog(body, parties, &mut benv) {
                    Result::Ok(ro) => {
                        if !subset_names_exec(&ro, parties) {
                            return Result::Err(ChorError::EnclaveResultEscapes);
                        }
                        proof {
                            crate::sem::lemma_subset_not_contains(
                                names_of(ro@),
                                names_of(parties@),
                                target@,
                            );
                            assert(!names_of(ro@).contains(target@));
                            lemma_wf_set(old(env)@, old(env)@.update(*bind as int, Option::Some((ro, Option::None::<Value>))), target@, *bind as int, (ro, Option::None));
                        }
                        env.set(*bind, Option::Some((ro, Option::None)));
                        assert(lenv_oview(env@) =~= lenv_oview(old(env)@).update(
                            *bind as int,
                            osem_op(
                                *op,
                                names_of(active@),
                                lenv_oview(old(env)@),
                            ).unwrap()[*bind as int],
                        ));
                        Result::Ok(())
                    },
                    Result::Err(e) => Result::Err(e),
                }
            }
        },
        ChoreoOp::Branch { bind, cond, then_prog, else_prog } => {
            if *bind >= env.len() || *cond >= env.len() {
                return Result::Err(ChorError::BadVariable);
            }
            let guard: bool;
            let cond_owners: Vec<String>;
            match &env[*cond] {
                Option::Some(p) => {
                    assert(lenv_oview(env@)[*cond as int] == Option::Some(names_of(p.0@)));
                    cond_owners = clone_names(&p.0);
                    if !subset_names_exec(active, &cond_owners) {
                        return Result::Err(ChorError::UnsharedGuard);
                    }
                    assert(names_of(p.0@).contains(target@));
                    match &p.1 {
                        Option::Some(v) => {
                            guard = crate::value::guard_of(v);
                        },
                        Option::None => {
                            assert(false);
                            guard = false;
                        },
                    }
                },
                Option::None => {
                    assert(lenv_oview(env@)[*cond as int] is None);
                    return Result::Err(ChorError::BadVariable);
                },
            }
            let mut o1 = owners_of_lenv(env);
            let mut o2 = owners_of_lenv(env);
            let r1 = owners_prog(then_prog, active, &mut o1);
            match r1 {
                Result::Ok(ro1) => {
                    let r2 = owners_prog(else_prog, active, &mut o2);
                    match r2 {
                        Result::Ok(ro2) => {
                            if !names_eq(&ro1, &ro2) {
                                return Result::Err(ChorError::DivergentBranches);
                            }
                            let mut benv = clone_lenv(env);
                            assert(penv_wf(benv@, target@));
                            let rb = if guard {
                                proj_prog(then_prog, active, target, tp, &mut benv)
                            } else {
                                proj_prog(else_prog, active, target, tp, &mut benv)
                            };
                            match rb {
                                Result::Ok((os, vopt)) => {
                                    proof {
                                        lemma_wf_set(old(env)@, old(env)@.update(*bind as int, Option::Some((os, vopt))), target@, *bind as int, (os, vopt));
                                    }
                                    env.set(*bind, Option::Some((os, vopt)));
                                    assert(lenv_oview(env@) =~= lenv_oview(old(env)@).update(
                                        *bind as int,
                                        osem_op(
                                            *op,
                                            names_of(active@),
                                            lenv_oview(old(env)@),
                                        ).unwrap()[*bind as int],
                                    ));
                                    Result::Ok(())
                                },
                                Result::Err(e) => Result::Err(e),
                            }
                        },
                        Result::Err(e) => Result::Err(e),
                    }
                },
                Result::Err(e) => Result::Err(e),
            }
        },
    }
}

/// Runs a program of the projection at `target`, returning the owners of the
/// result and, where the target is among them, its value.
fn proj_prog<C: LocalComputation, T: Transport>(
    p: &Program<C>,
    active: &Vec<String>,
    target: &String,
    tp: &T,
    env: &mut LocalEnv,
) -> (r: Result<(Vec<String>, Option<Value>), ChorError>)
    requires
        names_of(active@).contains(target@),
        penv_wf(old(env)@, target@),
        forall|l: Seq<char>|
            names_of(active@).contains(l) ==> #[trigger] tp.spec_locations().contains(l),
    ensures
        match (r, osem_prog(*p, names_of(active@), lenv_oview(old(env)@))) {
            (Result::Ok((os, vopt)), Result::Ok((e2, ro))) => lenv_oview(final(env)@) == e2
                && penv_wf(final(env)@, target@) && names_of(os@) == ro && ((vopt is Some)
                == ro.contains(target@)),
            (Result::Err(a), Result::Err(b)) => a == b || a == ChorError::TransportFailure || a
                == ChorError::SerializationFailure,
            (Result::Err(a), Result::Ok(_)) => a == ChorError::TransportFailure || a
                == ChorError::SerializationFailure,
            _ => false,
        },
    decreases *p,
{
    match p {
        Program::Ret(v) => {
            if *v >= env.len() {
                return Result::Err(ChorError::BadVariable);
            }
            match &env[*v] {
                Option::Some(pr) => {
                    assert(lenv_oview(env@)[*v as int] == Option::Some(names_of(pr.0@)));
                    let vopt: Option<Value> = match &pr.1 {
                        Option::Some(val) => Option::Some(val.dup()),
                        Option::None => Option::None,
                    };
                    Result::Ok((clone_names(&pr.0), vopt))
                },
                Option::None => {
                    assert(lenv_oview(env@)[*v as int] is None);
                    Result::Err(ChorError::BadVariable)
                },
            }
        },
        Program::Then(op, rest) => match proj_op(op, active, target, tp, env) {
            Result::Ok(()) => proj_prog(rest, active, target, tp, env),
            Result::Err(e) => Result::Err(e),
        },
    }
}

/// Performs endpoint projection: executes one location's share of
/// choreographies against a transport.
pub struct Projector<T: Transport> {
    target: String,
    transport: T,
}

impl<T: Transport> Projector<T> {
    /// The name of the projection target.
    pub closed spec fn spec_target(self) -> Seq<char> {
        self.target@
    }

    /// The transport the projector runs over.
    pub closed spec fn spec_transport(self) -> T {
        self.transport
    }

    /// Constructs a projector for a target location over a transport.
    pub fn new<L: ChoreographyLocation>(target: L, transport: T) -> (r: Self)
        ensures
            r.spec_target() == L::spec_name(),
            r.spec_transport() == transport,
    {
        let _ = target;
        Projector { target: L::name().to_owned(), transport }
    }

    /// Wraps a value as an input located at the projection target.
    pub fn local(&self, value: Value) -> (r: MultiplyLocated<Value>)
        ensures
            r.opt() == Some(value),
    {
        MultiplyLocated::local(value)
    }

    /// Builds an input located away from the projection target.
    pub fn remote<L: ChoreographyLocation>(&self, at: L) -> (r: MultiplyLocated<Value>)
        ensures
            r.opt() is None,
    {
        let _ = at;
        MultiplyLocated::remote()
    }

    /// Opens a located value produced by a run; it must be present at the
    /// projection target.
    pub fn unwrap(&self, located: MultiplyLocated<Value>) -> (r: Value)
        requires
            located.is_present(),
        ensures
            Some(r) == located.opt(),
    {
        located.into_value()
    }

    /// Whether the supplied located inputs do not fit a choreography's
    /// input declarations, seen from `target`: a wrong count, or an input
    /// that is present where the target does not own it or absent where it
    /// does.
    pub open spec fn inputs_mismatched<C: LocalComputation>(
        choreo: Choreography<C>,
        inputs: Seq<MultiplyLocated<Value>>,
        target: Seq<char>,
    ) -> bool {
        inputs.len() != choreo.inputs@.len() || (exists|i: int|
            0 <= i < choreo.inputs@.len() && (#[trigger] inputs[i]).is_present() != names_of(
                choreo.inputs@[i].owners@,
            ).contains(target))
    }

    /// Performs endpoint projection and runs a choreography at the
    /// projection target.  On success the result is present exactly when the
    /// ownership semantics says the target owns it; declaration defects are
    /// reported exactly as the semantics says; an input mismatch is reported
    /// only when the inputs really do not fit the declarations at this
    /// target; and beyond those only transport-level failures can occur.
    #[verifier::loop_isolation(false)]
    pub fn epp_and_run<C: LocalComputation>(
        &self,
        choreo: &Choreography<C>,
        inputs: Vec<MultiplyLocated<Value>>,
    ) -> (r: Result<MultiplyLocated<Value>, ChorError>)
        ensures
            match (r, crate::sem::choreo_osem(*choreo, inputs@.len() as nat)) {
                (Result::Ok(ml), Result::Ok((_e2, ro))) => ml.is_present() == ro.contains(
                    self.spec_target(),
                ),
                (Result::Err(a), Result::Err(b)) => a == b || a == ChorError::TransportFailure || a
                    == ChorError::SerializationFailure || (a == ChorError::InputMismatch
                    && Self::inputs_mismatched(*choreo, inputs@, self.spec_target())) || (a
                    == ChorError::ParticipantNotDeclared && (!names_of(choreo.parties@).contains(
                    self.spec_target(),
                ) || !crate::sem::names_subset(
                    names_of(choreo.parties@),
                    self.spec_transport().spec_locations(),
                ))),
                (Result::Err(a), Result::Ok(_)) => a == ChorError::TransportFailure || a
                    == ChorError::SerializationFailure || (a == ChorError::InputMismatch
                    && Self::inputs_mismatched(*choreo, inputs@, self.spec_target())) || (a
                    == ChorError::ParticipantNotDeclared && (!names_of(choreo.parties@).contains(
                    self.spec_target(),
                ) || !crate::sem::names_subset(
                    names_of(choreo.parties@),
                    self.spec_transport().spec_locations(),
                ))),
                _ => false,
            },
    {
        let nd = choreo.inputs.len();
        if inputs.len() != nd {
            return Result::Err(ChorError::InputMismatch);
        }
        if !contains_name(&choreo.parties, &self.target) {
            return Result::Err(ChorError::ParticipantNotDeclared);
        }
        if !distinct_names_exec(&choreo.parties) {
            return Result::Err(ChorError::ParticipantNotDeclared);
        }
        let tlocs = self.transport.locations();
        if !subset_names_exec(&choreo.parties, &tlocs) {
            return Result::Err(ChorError::ParticipantNotDeclared);
        }
        let mut env: LocalEnv = Vec::new();
        let mut i: usize = 0;
        while i < choreo.n_vars
            invariant
                i <= choreo.n_vars,
                env@.len() == i,
                forall|j: int| 0 <= j < i ==> env@[j] is None,
            decreases choreo.n_vars - i,
        {
            env.push(Option::None);
            i = i + 1;
        }
        assert(lenv_oview(env@) =~= Seq::new(
            choreo.n_vars as nat,
            |k: int| Option::None::<Seq<Seq<char>>>,
        ));
        assert(penv_wf(env@, self.target@));
        let ghost orig_inputs = inputs@;
        let mut inputs = inputs;
        let mut d: usize = 0;
        assert(choreo.inputs@.skip(0) =~= choreo.inputs@);
        while d < nd
            invariant
                d <= nd,
                inputs@ == orig_inputs.skip(d as int),
                env@.len() == choreo.n_vars as nat,
                penv_wf(env@, self.target@),
                crate::sem::init_oenv(
                    names_of(choreo.parties@),
                    choreo.inputs@,
                    Seq::new(choreo.n_vars as nat, |k: int| Option::None::<Seq<Seq<char>>>),
                ) == crate::sem::init_oenv(
                    names_of(choreo.parties@),
                    choreo.inputs@.skip(d as int),
                    lenv_oview(env@),
                ),
            decreases nd - d,
        {
            let decl = &choreo.inputs[d];
            proof {
                assert(choreo.inputs@.skip(d as int)[0] == choreo.inputs@[d as int]);
                assert(lenv_oview(env@).len() == env@.len());
            }
            if decl.var >= env.len() {
                return Result::Err(ChorError::BadVariable);
            }
            if !subset_names_exec(&decl.owners, &choreo.parties) {
                return Result::Err(ChorError::ParticipantNotDeclared);
            }
            proof {
                assert(orig_inputs.skip(d as int)[0] == orig_inputs[d as int]);
            }
            let ml = inputs.remove(0);
            proof {
                assert(inputs@ =~= orig_inputs.skip(d + 1));
            }
            let owned_here = contains_name(&decl.owners, &self.target);
            let present = ml.has_value();
            if present != owned_here {
                assert(orig_inputs[d as int].is_present() != names_of(
                    choreo.inputs@[d as int].owners@,
                ).contains(self.spec_target()));
                return Result::Err(ChorError::InputMismatch);
            }
            let vopt: Option<Value> = if present {
                Option::Some(ml.into_value())
            } else {
                Option::None
            };
            let ghost before = env@;
            env.set(decl.var, Option::Some((clone_names(&decl.owners), vopt)));
            proof {
                assert(choreo.inputs@.skip(d as int).drop_first() =~= choreo.inputs@.skip(d + 1));
                assert(lenv_oview(env@) =~= lenv_oview(before).update(
                    choreo.inputs@[d as int].var as int,
                    Option::Some(names_of(choreo.inputs@[d as int].owners@)),
                ));
            }
            d = d + 1;
        }
        assert(choreo.inputs@.skip(nd as int) =~= Seq::<crate::choreo::InputDecl>::empty());
        match proj_prog(&choreo.body, &choreo.parties, &self.target, &self.transport, &mut env) {
            Result::Ok((_os, vopt)) => match vopt {
                Option::Some(v) => Result::Ok(MultiplyLocated::local(v)),
                Option::None => Result::Ok(MultiplyLocated::remote()),
            },
            Result::Err(e) => Result::Err(e),
        }
    }
}

} // verus!
