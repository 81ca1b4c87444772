//! The executable ownership interpreter.
//!
//! It runs a program against owner sets only — no values — and is verified
//! to agree exactly with the ownership semantics [`crate::sem::osem_prog`].
//! A single participant runs it to learn the shape of a sub-protocol it does
//! not take part in, and to check, before any message is sent, that a
//! choreography is free of declaration defects.

use vstd::prelude::*;

use crate::choreo::{Choreography, ChoreoOp, LocalComputation, Program};
use crate::error::ChorError;
use crate::location::{clone_names, contains_name, distinct_names_exec, names_eq, subset_names_exec};
use crate::sem::{init_oenv, names_of, osem_op, osem_prog, OEnv};

verus! {

/// The executable form of an ownership environment.
pub type OwnerEnv = Vec<Option<Vec<String>>>;

/// The mathematical image of an executable ownership environment.
pub open spec fn oenv_view(e: Seq<Option<Vec<String>>>) -> OEnv {
    e.map_values(
        |o: Option<Vec<String>>|
            match o {
                Option::Some(v) => Option::Some(names_of(v@)),
                Option::None => Option::None,
            },
    )
}

/// A copy of an ownership environment.
pub fn clone_oenv(env: &OwnerEnv) -> (r: OwnerEnv)
    ensures
        oenv_view(r@) == oenv_view(env@),
{
    let n = env.len();
    let mut r: OwnerEnv = Vec::new();
    let mut i: usize = 0;
    while i < n
        invariant
            i <= n,
            n == env@.len(),
            r@.len() == i,
            forall|j: int| 0 <= j < i ==> oenv_view(r@)[j] == oenv_view(env@)[j],
        decreases n - i,
    {
        let ghost prev = r@;
        match &env[i] {
            Option::Some(os) => {
                r.push(Option::Some(clone_names(os)));
            },
            Option::None => {
                r.push(Option::None);
            },
        }
        assert forall|j: int| 0 <= j < i + 1 implies oenv_view(r@)[j] == oenv_view(env@)[j] by {
            if j < i {
                assert(oenv_view(prev)[j] == oenv_view(env@)[j]);
                assert(r@[j] == prev[j]);
            }
        }
        i = i + 1;
    }
    assert(oenv_view(r@) =~= oenv_view(env@));
    r
}

/// Checks that every argument variable is bound and owned at `at`.
fn check_args(env: &OwnerEnv, args: &Vec<usize>, at: &String) -> (r: bool)
    ensures
        r == crate::sem::args_ok_o(oenv_view(env@), args@, at@),
{
    let n = args.len();
    let mut i: usize = 0;
    while i < n
        invariant
            i <= n,
            n == args@.len(),
            forall|j: int|
                0 <= j < i ==> (#[trigger] args@[j]) < oenv_view(env@).len() && oenv_view(
                    env@,
                )[args@[j] as int] is Some && oenv_view(env@)[args@[j] as int].unwrap().contains(
                    at@,
                ),
        decreases n - i,
    {
        let a = args[i];
        if a >= env.len() {
            return false;
        }
        match &env[a] {
            Option::Some(os) => {
                if !contains_name(os, at) {
                    assert(oenv_view(env@)[a as int] == Option::Some(names_of(os@)));
                    return false;
                }
                assert(oenv_view(env@)[a as int] == Option::Some(names_of(os@)));
            },
            Option::None => {
                assert(oenv_view(env@)[a as int] is None);
                return false;
            },
        }
        i = i + 1;
    }
    true
}

/// Checks that a variable is bound and owned at `at`.
fn check_var(env: &OwnerEnv, v: usize, at: &String) -> (r: bool)
    ensures
        r == crate::sem::var_ok_o(oenv_view(env@), v, at@),
{
    if v >= env.len() {
        return false;
    }
    match &env[v] {
        Option::Some(os) => {
            assert(oenv_view(env@)[v as int] == Option::Some(names_of(os@)));
            contains_name(os, at)
        },
        Option::None => {
            assert(oenv_view(env@)[v as int] is None);
            false
        },
    }
}

/// Runs one operation against owner sets only.
pub fn owners_op<C: LocalComputation>(
    op: &ChoreoOp<C>,
    active: &Vec<String>,
    env: &mut OwnerEnv,
) -> (r: Result<(), ChorError>)
    ensures
        match (r, osem_op(*op, names_of(active@), oenv_view(old(env)@))) {
            (Result::Ok(()), Result::Ok(e2)) => oenv_view(final(env)@) == e2,
            (Result::Err(a), Result::Err(b)) => a == b,
            _ => false,
        },
    decreases *op,
{
    match op {
        ChoreoOp::Locally { bind, at, comp: _, args } => {
            if *bind >= env.len() {
                return Result::Err(ChorError::BadVariable);
            }
            if !contains_name(active, at) {
                return Result::Err(ChorError::ParticipantNotDeclared);
            }
            if !check_args(env, args, at) {
                return Result::Err(ChorError::AbsentValue);
            }
            let mut os: Vec<String> = Vec::new();
            os.push(at.clone());
            assert(names_of(os@) =~= seq![at@]);
            env.set(*bind, Option::Some(os));
            assert(oenv_view(env@) =~= oenv_view(old(env)@).update(
                *bind as int,
                Option::Some(seq![at@]),
            ));
            Result::Ok(())
        },
        ChoreoOp::Comm { bind, from, to, arg } => {
            if *bind >= env.len() {
                return Result::Err(ChorError::BadVariable);
            }
            if !contains_name(active, from) || !contains_name(active, to) {
                return Result::Err(ChorError::ParticipantNotDeclared);
            }
            if !check_var(env, *arg, from) {
                return Result::Err(ChorError::AbsentValue);
            }
            let mut os: Vec<String> = Vec::new();
            os.push(to.clone());
            assert(names_of(os@) =~= seq![to@]);
            env.set(*bind, Option::Some(os));
            assert(oenv_view(env@) =~= oenv_view(old(env)@).update(
                *bind as int,
                Option::Some(seq![to@]),
            ));
            Result::Ok(())
        },
        ChoreoOp::Broadcast { bind, from, arg } => {
            if *bind >= env.len() {
                return Result::Err(ChorError::BadVariable);
            }
            if !contains_name(active, from) {
                return Result::Err(ChorError::ParticipantNotDeclared);
            }
            if !check_var(env, *arg, from) {
                return Result::Err(ChorError::AbsentValue);
            }
            let os = clone_names(active);
            env.set(*bind, Option::Some(os));
            assert(oenv_view(env@) =~= oenv_view(old(env)@).update(
                *bind as int,
                Option::Some(names_of(active@)),
            ));
            Result::Ok(())
        },
        ChoreoOp::Multicast { bind, from, dests, arg } => {
            if *bind >= env.len() {
                return Result::Err(ChorError::BadVariable);
            }
            if !contains_name(active, from) || !subset_names_exec(dests, active) {
                return Result::Err(ChorError::ParticipantNotDeclared);
            }
            if !check_var(env, *arg, from) {
                return Result::Err(ChorError::AbsentValue);
            }
            let mut os = clone_names(dests);
            if !contains_name(dests, from) {
                os.push(from.clone());
                assert(names_of(os@) =~= names_of(dests@).push(from@));
            }
            assert(names_of(os@) == crate::sem::owners_with(names_of(dests@), from@));
            env.set(*bind, Option::Some(os));
            assert(oenv_view(env@) =~= oenv_view(old(env)@).update(
                *bind as int,
                Option::Some(crate::sem::owners_with(names_of(dests@), from@)),
            ));
            Result::Ok(())
        },
        ChoreoOp::Enclave { bind, parties, body } => {
            if *bind >= env.len() {
                return Result::Err(ChorError::BadVariable);
            }
            if !subset_names_exec(parties, active) || !distinct_names_exec(parties) {
                return Result::Err(ChorError::ParticipantNotDeclared);
            }
            let mut benv = clone_oenv(env);
            match owners_prog(body, parties, &mut benv) {
                Result::Ok(ro) => {
                    if !subset_names_exec(&ro, parties) {
                        return Result::Err(ChorError::EnclaveResultEscapes);
                    }
                    env.set(*bind, Option::Some(ro));
                    assert(oenv_view(env@) =~= oenv_view(old(env)@).update(
                        *bind as int,
                        osem_op(*op, names_of(active@), oenv_view(old(env)@)).unwrap()[*bind as int],
                    ));
                    Result::Ok(())
                },
                Result::Err(e) => Result::Err(e),
            }
        },
        ChoreoOp::Branch { bind, cond, then_prog, else_prog } => {
            if *bind >= env.len() || *cond >= env.len() {
                return Result::Err(ChorError::BadVariable);
            }
            let cond_owners: Vec<String> = match &env[*cond] {
                Option::Some(os) => clone_names(os),
                Option::None => {
                    assert(oenv_view(env@)[*cond as int] is None);
                    return Result::Err(ChorError::BadVariable);
                },
            };
            assert(oenv_view(env@)[*cond as int] == Option::Some(names_of(cond_owners@)));
            if !subset_names_exec(active, &cond_owners) {
                return Result::Err(ChorError::UnsharedGuard);
            }
            let mut e1 = clone_oenv(env);
            let mut e2 = clone_oenv(env);
            let r1 = owners_prog(then_prog, active, &mut e1);
            match r1 {
                Result::Ok(ro1) => {
                    let r2 = owners_prog(else_prog, active, &mut e2);
                    match r2 {
                        Result::Ok(ro2) => {
                            if names_eq(&ro1, &ro2) {
                                env.set(*bind, Option::Some(ro1));
                                assert(oenv_view(env@) =~= oenv_view(old(env)@).update(
                                    *bind as int,
                                    osem_op(
                                        *op,
                                        names_of(active@),
                                        oenv_view(old(env)@),
                                    ).unwrap()[*bind as int],
                                ));
                                Result::Ok(())
                            } else {
                                Result::Err(ChorError::DivergentBranches)
                            }
                        },
                        Result::Err(e) => Result::Err(e),
                    }
                },
                Result::Err(e) => Result::Err(e),
            }
        },
    }
}

/// Runs a program against owner sets only, returning the owners of its
/// result.
pub fn owners_prog<C: LocalComputation>(
    p: &Program<C>,
    active: &Vec<String>,
    env: &mut OwnerEnv,
) -> (r: Result<Vec<String>, ChorError>)
    ensures
        match (r, osem_prog(*p, names_of(active@), oenv_view(old(env)@))) {
            (Result::Ok(ro), Result::Ok((e2, ro2))) => oenv_view(final(env)@) == e2 && names_of(
                ro@,
            ) == ro2,
            (Result::Err(a), Result::Err(b)) => a == b,
            _ => false,
        },
    decreases *p,
{
    match p {
        Program::Ret(v) => {
            if *v >= env.len() {
                return Result::Err(ChorError::BadVariable);
            }
            match &env[*v] {
                Option::Some(os) => {
                    assert(oenv_view(env@)[*v as int] == Option::Some(names_of(os@)));
                    Result::Ok(clone_names(os))
                },
                Option::None => {
                    assert(oenv_view(env@)[*v as int] is None);
                    Result::Err(ChorError::BadVariable)
                },
            }
        },
        Program::Then(op, rest) => match owners_op(op, active, env) {
            Result::Ok(()) => owners_prog(rest, active, env),
            Result::Err(e) => Result::Err(e),
        },
    }
}

/// Builds the initial ownership environment of a choreography and runs its
/// body against owner sets only: the complete declaration-level check.
#[verifier::loop_isolation(false)]
pub fn owners_choreo<C: LocalComputation>(c: &Choreography<C>, n_inputs: usize) -> (r: Result<
    Vec<String>,
    ChorError,
>)
    ensures
        match (r, crate::sem::choreo_osem(*c, n_inputs as nat)) {
            (Result::Ok(ro), Result::Ok((_e2, ro2))) => names_of(ro@) == ro2,
            (Result::Err(a), Result::Err(b)) => a == b,
            _ => false,
        },
{
    if c.inputs.len() != n_inputs {
        return Result::Err(ChorError::InputMismatch);
    }
    if !distinct_names_exec(&c.parties) {
        return Result::Err(ChorError::ParticipantNotDeclared);
    }
    let mut env: OwnerEnv = Vec::new();
    let mut i: usize = 0;
    while i < c.n_vars
        invariant
            i <= c.n_vars,
            env@.len() == i,
            forall|j: int| 0 <= j < i ==> env@[j] is None,
        decreases c.n_vars - i,
    {
        env.push(Option::None);
        i = i + 1;
    }
    assert(oenv_view(env@) =~= Seq::new(c.n_vars as nat, |k: int| Option::None::<Seq<Seq<char>>>));
    let nd = c.inputs.len();
    let mut d: usize = 0;
    assert(c.inputs@.skip(0) =~= c.inputs@);
    while d < nd
        invariant
            d <= nd,
            nd == c.inputs@.len(),
            nd == n_inputs,
            env@.len() == c.n_vars as nat,
            init_oenv(
                names_of(c.parties@),
                c.inputs@,
                Seq::new(c.n_vars as nat, |k: int| Option::None::<Seq<Seq<char>>>),
            ) == init_oenv(names_of(c.parties@), c.inputs@.skip(d as int), oenv_view(env@)),
        decreases nd - d,
    {
        let decl = &c.inputs[d];
        proof {
            assert(c.inputs@.skip(d as int)[0] == c.inputs@[d as int]);
            assert(oenv_view(env@).len() == env@.len());
        }
        if decl.var >= env.len() {
            return Result::Err(ChorError::BadVariable);
        }
        if !subset_names_exec(&decl.owners, &c.parties) {
            return Result::Err(ChorError::ParticipantNotDeclared);
        }
        let ghost before = env@;
        env.set(decl.var, Option::Some(clone_names(&decl.owners)));
        proof {
            assert(c.inputs@.skip(d as int).drop_first() =~= c.inputs@.skip(d + 1));
            assert(oenv_view(env@) =~= oenv_view(before).update(
                c.inputs@[d as int].var as int,
                Option::Some(names_of(c.inputs@[d as int].owners@)),
            ));
        }
        d = d + 1;
    }
    assert(c.inputs@.skip(nd as int) =~= Seq::<crate::choreo::InputDecl>::empty());
    owners_prog(&c.body, &c.parties, &mut env)
}

} // verus!
