//! The centralized reference interpreter.
//!
//! A `Runner` executes a choreography in one process, no network attached:
//! every `locally` runs, every communication is a clone of the value through
//! the serialization codec, and an `enclave` is an unconditional sub-run.
//! `Runner::run` is verified against the central semantics
//! [`crate::sem::choreo_sem`]: what it returns is exactly the mathematical
//! meaning of the choreography on the given inputs.

use vstd::prelude::*;

use crate::choreo::{Choreography, ChoreoOp, LocalComputation, Program};
use crate::codec::value_round_trip;
use crate::error::ChorError;
use crate::located::MultiplyLocated;
use crate::location::{clone_names, contains_name, distinct_names_exec, names_eq, subset_names_exec};
use crate::ownership::{oenv_view, owners_prog, OwnerEnv};
use crate::sem::{
    arg_vals, choreo_sem, erase, init_env, names_of, sem_op, sem_prog, CEnv, EntryModel,
};
use crate::value::{view_of, Value};

verus! {

/// The executable form of a central environment: each bound variable holds
/// its owners and its value.
pub type ValueEnv = Vec<Option<(Vec<String>, Value)>>;

/// The mathematical image of an executable central environment.
pub open spec fn cenv_view(e: Seq<Option<(Vec<String>, Value)>>) -> CEnv {
    e.map_values(
        |o: Option<(Vec<String>, Value)>|
            match o {
                Option::Some(p) => Option::Some(
                    EntryModel { owners: names_of(p.0@), val: view_of(p.1) },
                ),
                Option::None => Option::None,
            },
    )
}

/// The images of a sequence of located input values; meaningful where every
/// input is present.
pub open spec fn input_models(inputs: Seq<MultiplyLocated<Value>>) -> Seq<crate::value::ValModel> {
    Seq::new(inputs.len(), |i: int| view_of(inputs[i].opt().unwrap()))
}

/// The owner sets of a central environment.
fn owners_of_env(env: &ValueEnv) -> (r: OwnerEnv)
    ensures
        oenv_view(r@) == erase(cenv_view(env@)),
{
    let n = env.len();
    let mut r: OwnerEnv = Vec::new();
    let mut i: usize = 0;
    while i < n
        invariant
            i <= n,
            n == env@.len(),
            r@.len() == i,
            forall|j: int| 0 <= j < i ==> oenv_view(r@)[j] == erase(cenv_view(env@))[j],
        decreases n - i,
    {
        let ghost prev = r@;
        match &env[i] {
            Option::Some(p) => {
                r.push(Option::Some(clone_names(&p.0)));
            },
            Option::None => {
                r.push(Option::None);
            },
        }
        assert forall|j: int| 0 <= j < i + 1 implies oenv_view(r@)[j] == erase(cenv_view(env@))[j]
        by {
            if j < i {
                assert(oenv_view(prev)[j] == erase(cenv_view(env@))[j]);
                assert(r@[j] == prev[j]);
            }
        }
        i = i + 1;
    }
    assert(oenv_view(r@) =~= erase(cenv_view(env@)));
    r
}

/// A deep copy of a central environment.
fn clone_env(env: &ValueEnv) -> (r: ValueEnv)
    ensures
        cenv_view(r@) == cenv_view(env@),
{
    let n = env.len();
    let mut r: ValueEnv = Vec::new();
    let mut i: usize = 0;
    while i < n
        invariant
            i <= n,
            n == env@.len(),
            r@.len() == i,
            forall|j: int| 0 <= j < i ==> cenv_view(r@)[j] == cenv_view(env@)[j],
        decreases n - i,
    {
        let ghost prev = r@;
        match &env[i] {
            Option::Some(p) => {
                r.push(Option::Some((clone_names(&p.0), p.1.dup())));
            },
            Option::None => {
                r.push(Option::None);
            },
        }
        assert forall|j: int| 0 <= j < i + 1 implies cenv_view(r@)[j] == cenv_view(env@)[j] by {
            if j < i {
                assert(cenv_view(prev)[j] == cenv_view(env@)[j]);
                assert(r@[j] == prev[j]);
            }
        }
        i = i + 1;
    }
    assert(cenv_view(r@) =~= cenv_view(env@));
    r
}

/// Gathers the values of the argument variables, checking that each is bound
/// and owned at `at`.
fn gather_args(env: &ValueEnv, args: &Vec<usize>, at: &String) -> (r: Option<Vec<Value>>)
    ensures
        match r {
            Option::Some(vals) => crate::sem::args_ok_o(erase(cenv_view(env@)), args@, at@)
                && vals@.map_values(|v: Value| view_of(v)) == arg_vals(cenv_view(env@), args@),
            Option::None => !crate::sem::args_ok_o(erase(cenv_view(env@)), args@, at@),
        },
{
    let n = args.len();
    let mut vals: Vec<Value> = Vec::new();
    let mut i: usize = 0;
    while i < n
        invariant
            i <= n,
            n == args@.len(),
            vals@.len() == i,
            forall|j: int|
                0 <= j < i ==> (#[trigger] args@[j]) < cenv_view(env@).len() && erase(
                    cenv_view(env@),
                )[args@[j] as int] is Some && erase(cenv_view(env@))[args@[j] as int].unwrap()
                    .contains(at@),
            forall|j: int|
                0 <= j < i ==> view_of(#[trigger] vals@[j]) == cenv_view(
                    env@,
                )[args@[j] as int].unwrap().val,
        decreases n - i,
    {
        let a = args[i];
        if a >= env.len() {
            return Option::None;
        }
        match &env[a] {
            Option::Some(p) => {
                assert(cenv_view(env@)[a as int] == Option::Some(
                    EntryModel { owners: names_of(p.0@), val: view_of(p.1) },
                ));
                assert(erase(cenv_view(env@))[a as int] == Option::Some(names_of(p.0@)));
                if !contains_name(&p.0, at) {
                    return Option::None;
                }
                vals.push(p.1.dup());
            },
            Option::None => {
                assert(erase(cenv_view(env@))[a as int] is None);
                return Option::None;
            },
        }
        i = i + 1;
    }
    assert(vals@.map_values(|v: Value| view_of(v)) =~= arg_vals(cenv_view(env@), args@));
    Option::Some(vals)
}

/// Runs one operation centrally.
fn run_op<C: LocalComputation>(
    op: &ChoreoOp<C>,
    active: &Vec<String>,
    env: &mut ValueEnv,
) -> (r: Result<(), ChorError>)
    ensures
        match (r, sem_op(*op, names_of(active@), cenv_view(old(env)@))) {
            (Result::Ok(()), Result::Ok(e2)) => cenv_view(final(env)@) == e2,
            (Result::Err(a), Result::Err(b)) => a == b,
            _ => false,
        },
    decreases *op,
{
    match op {
        ChoreoOp::Locally { bind, at, comp, args } => {
            if *bind >= env.len() {
                return Result::Err(ChorError::BadVariable);
            }
            if !contains_name(active, at) {
                return Result::Err(ChorError::ParticipantNotDeclared);
            }
            match gather_args(env, args, at) {
                Option::Some(vals) => {
                    let result = comp.apply(&vals);
                    let mut os: Vec<String> = Vec::new();
                    os.push(at.clone());
                    assert(names_of(os@) =~= seq![at@]);
                    env.set(*bind, Option::Some((os, result)));
                    assert(cenv_view(env@) =~= cenv_view(old(env)@).update(
                        *bind as int,
                        sem_op(*op, names_of(active@), cenv_view(old(env)@)).unwrap()[*bind as int],
                    ));
                    Result::Ok(())
                },
                Option::None => Result::Err(ChorError::AbsentValue),
            }
        },
        ChoreoOp::Comm { bind, from, to, arg } => {
            if *bind >= env.len() {
                return Result::Err(ChorError::BadVariable);
            }
            if !contains_name(active, from) || !contains_name(active, to) {
                return Result::Err(ChorError::ParticipantNotDeclared);
            }
            if *arg >= env.len() {
                return Result::Err(ChorError::AbsentValue);
            }
            match &env[*arg] {
                Option::Some(p) => {
                    assert(erase(cenv_view(env@))[*arg as int] == Option::Some(names_of(p.0@)));
                    if !contains_name(&p.0, from) {
                        return Result::Err(ChorError::AbsentValue);
                    }
                    let v = value_round_trip(&p.1);
                    let mut os: Vec<String> = Vec::new();
                    os.push(to.clone());
                    assert(names_of(os@) =~= seq![to@]);
                    env.set(*bind, Option::Some((os, v)));
                    assert(cenv_view(env@) =~= cenv_view(old(env)@).update(
                        *bind as int,
                        sem_op(*op, names_of(active@), cenv_view(old(env)@)).unwrap()[*bind as int],
                    ));
                    Result::Ok(())
                },
                Option::None => {
                    assert(erase(cenv_view(env@))[*arg as int] is None);
                    Result::Err(ChorError::AbsentValue)
                },
            }
        },
        ChoreoOp::Broadcast { bind, from, arg } => {
            if *bind >= env.len() {
                return Result::Err(ChorError::BadVariable);
            }
            if !contains_name(active, from) {
                return Result::Err(ChorError::ParticipantNotDeclared);
            }
            if *arg >= env.len() {
                return Result::Err(ChorError::AbsentValue);
            }
            match &env[*arg] {
                Option::Some(p) => {
                    assert(erase(cenv_view(env@))[*arg as int] == Option::Some(names_of(p.0@)));
                    if !contains_name(&p.0, from) {
                        return Result::Err(ChorError::AbsentValue);
                    }
                    let v = value_round_trip(&p.1);
                    let os = clone_names(active);
                    env.set(*bind, Option::Some((os, v)));
                    assert(cenv_view(env@) =~= cenv_view(old(env)@).update(
                        *bind as int,
                        sem_op(*op, names_of(active@), cenv_view(old(env)@)).unwrap()[*bind as int],
                    ));
                    Result::Ok(())
                },
                Option::None => {
                    assert(erase(cenv_view(env@))[*arg as int] is None);
                    Result::Err(ChorError::AbsentValue)
                },
            }
        },
        ChoreoOp::Multicast { bind, from, dests, arg } => {
            if *bind >= env.len() {
                return Result::Err(ChorError::BadVariable);
            }
            if !contains_name(active, from) || !subset_names_exec(dests, active) {
                return Result::Err(ChorError::ParticipantNotDeclared);
            }
            if *arg >= env.len() {
                return Result::Err(ChorError::AbsentValue);
            }
            match &env[*arg] {
                Option::Some(p) => {
                    assert(erase(cenv_view(env@))[*arg as int] == Option::Some(names_of(p.0@)));
                    if !contains_name(&p.0, from) {
                        return Result::Err(ChorError::AbsentValue);
                    }
                    let v = value_round_trip(&p.1);
                    let mut os = clone_names(dests);
                    if !contains_name(dests, from) {
                        os.push(from.clone());
                        assert(names_of(os@) =~= names_of(dests@).push(from@));
                    }
                    assert(names_of(os@) == crate::sem::owners_with(names_of(dests@), from@));
                    env.set(*bind, Option::Some((os, v)));
                    assert(cenv_view(env@) =~= cenv_view(old(env)@).update(
                        *bind as int,
                        sem_op(*op, names_of(active@), cenv_view(old(env)@)).unwrap()[*bind as int],
                    ));
                    Result::Ok(())
                },
                Option::None => {
                    assert(erase(cenv_view(env@))[*arg as int] is None);
                    Result::Err(ChorError::AbsentValue)
                },
            }
        },
        ChoreoOp::Enclave { bind, parties, body } => {
            if *bind >= env.len() {
                return Result::Err(ChorError::BadVariable);
            }
            if !subset_names_exec(parties, active) || !distinct_names_exec(parties) {
                return Result::Err(ChorError::ParticipantNotDeclared);
            }
            let mut benv = clone_env(env);
            match run_prog(body, parties, &mut benv) {
                Result::Ok((os, v)) => {
                    if !subset_names_exec(&os, parties) {
                        return Result::Err(ChorError::EnclaveResultEscapes);
                    }
                    env.set(*bind, Option::Some((os, v)));
                    assert(cenv_view(env@) =~= cenv_view(old(env)@).update(
                        *bind as int,
                        sem_op(*op, names_of(active@), cenv_view(old(env)@)).unwrap()[*bind as int],
                    ));
                    Result::Ok(())
                },
                Result::Err(e) => Result::Err(e),
            }
        },
        ChoreoOp::Branch { bind, cond, then_prog, else_prog } => {
            if *bind >= env.len() || *cond >= env.len() {
                return Result::Err(ChorError::BadVariable);
            }
            let guard: bool;
            let cond_owners: Vec<String>;
            match &env[*cond] {
                Option::Some(p) => {
                    assert(cenv_view(env@)[*cond as int] == Option::Some(
                        EntryModel { owners: names_of(p.0@), val: view_of(p.1) },
                    ));
                    guard = crate::value::guard_of(&p.1);
                    cond_owners = clone_names(&p.0);
                },
                Option::None => {
                    assert(cenv_view(env@)[*cond as int] is None);
                    return Result::Err(ChorError::BadVariable);
                },
            }
            if !subset_names_exec(active, &cond_owners) {
                return Result::Err(ChorError::UnsharedGuard);
            }
            let mut o1 = owners_of_env(env);
            let mut o2 = owners_of_env(env);
            let r1 = owners_prog(then_prog, active, &mut o1);
            match r1 {
                Result::Ok(ro1) => {
                    let r2 = owners_prog(else_prog, active, &mut o2);
                    match r2 {
                        Result::Ok(ro2) => {
                            if !names_eq(&ro1, &ro2) {
                                return Result::Err(ChorError::DivergentBranches);
                            }
                            let mut benv = clone_env(env);
                            let rb = if guard {
                                run_prog(then_prog, active, &mut benv)
                            } else {
                                run_prog(else_prog, active, &mut benv)
                            };
                            match rb {
                                Result::Ok((os, v)) => {
                                    env.set(*bind, Option::Some((os, v)));
                                    assert(cenv_view(env@) =~= cenv_view(old(env)@).update(
                                        *bind as int,
                                        sem_op(
                                            *op,
                                            names_of(active@),
                                            cenv_view(old(env)@),
                                        ).unwrap()[*bind as int],
                                    ));
                                    Result::Ok(())
                                },
                                Result::Err(e) => Result::Err(e),
                            }
                        },
                        Result::Err(e) => Result::Err(e),
                    }
                },
                Result::Err(e) => Result::Err(e),
            }
        },
    }
}

/// Runs a program centrally, returning the owners and value of its result.
fn run_prog<C: LocalComputation>(
    p: &Program<C>,
    active: &Vec<String>,
    env: &mut ValueEnv,
) -> (r: Result<(Vec<String>, Value), ChorError>)
    ensures
        match (r, sem_prog(*p, names_of(active@), cenv_view(old(env)@))) {
            (Result::Ok(ent), Result::Ok((e2, entm))) => cenv_view(final(env)@) == e2 && names_of(
                ent.0@,
            ) == entm.owners && view_of(ent.1) == entm.val,
            (Result::Err(a), Result::Err(b)) => a == b,
            _ => false,
        },
    decreases *p,
{
    match p {
        Program::Ret(v) => {
            if *v >= env.len() {
                return Result::Err(ChorError::BadVariable);
            }
            match &env[*v] {
                Option::Some(pr) => {
                    assert(cenv_view(env@)[*v as int] == Option::Some(
                        EntryModel { owners: names_of(pr.0@), val: view_of(pr.1) },
                    ));
                    Result::Ok((clone_names(&pr.0), pr.1.dup()))
                },
                Option::None => {
                    assert(cenv_view(env@)[*v as int] is None);
                    Result::Err(ChorError::BadVariable)
                },
            }
        },
        Program::Then(op, rest) => match run_op(op, active, env) {
            Result::Ok(()) => run_prog(rest, active, env),
            Result::Err(e) => Result::Err(e),
        },
    }
}

/// The centralized runner.
pub struct Runner {}

impl Runner {
    /// Constructs a runner.
    pub fn new() -> (r: Runner) {
        Runner {  }
    }

    /// Wraps a value as a located input; the runner owns every location, so
    /// every input it supplies is present.
    pub fn local(&self, value: Value) -> (r: MultiplyLocated<Value>)
        ensures
            r.opt() == Some(value),
    {
        MultiplyLocated::local(value)
    }

    /// Opens a located value; the runner may do so at any location.
    pub fn unwrap(&self, located: MultiplyLocated<Value>) -> (r: Value)
        requires
            located.is_present(),
        ensures
            Some(r) == located.opt(),
    {
        located.into_value()
    }

    /// Runs a choreography centrally and returns the value of its result
    /// variable, which is exactly the central semantics of the choreography.
    pub fn run<C: LocalComputation>(
        &self,
        choreo: &Choreography<C>,
        inputs: Vec<MultiplyLocated<Value>>,
    ) -> (r: Result<Value, ChorError>)
        ensures
            (forall|i: int| 0 <= i < inputs@.len() ==> (#[trigger] inputs@[i]).is_present())
                ==> match (r, choreo_sem(*choreo, input_models(inputs@))) {
                (Result::Ok(v), Result::Ok((_e2, ent))) => view_of(v) == ent.val,
                (Result::Err(a), Result::Err(b)) => a == b,
                _ => false,
            },
            (!(forall|i: int| 0 <= i < inputs@.len() ==> (#[trigger] inputs@[i]).is_present()))
                ==> r == Result::<Value, ChorError>::Err(ChorError::InputMismatch),
    {
        match self.run_full(choreo, inputs) {
            Result::Ok((v, _env)) => Result::Ok(v),
            Result::Err(e) => Result::Err(e),
        }
    }

    /// Runs a choreography centrally and returns both the value of its
    /// result variable and the final environment, whose image is exactly the
    /// central semantics' final environment.
    #[verifier::loop_isolation(false)]
    pub fn run_full<C: LocalComputation>(
        &self,
        choreo: &Choreography<C>,
        inputs: Vec<MultiplyLocated<Value>>,
    ) -> (r: Result<(Value, ValueEnv), ChorError>)
        ensures
            (forall|i: int| 0 <= i < inputs@.len() ==> (#[trigger] inputs@[i]).is_present())
                ==> match (r, choreo_sem(*choreo, input_models(inputs@))) {
                (Result::Ok((v, fenv)), Result::Ok((e2, ent))) => view_of(v) == ent.val
                    && cenv_view(fenv@) == e2,
                (Result::Err(a), Result::Err(b)) => a == b,
                _ => false,
            },
            (!(forall|i: int| 0 <= i < inputs@.len() ==> (#[trigger] inputs@[i]).is_present()))
                ==> (r matches Result::Err(e) && e == ChorError::InputMismatch),
    {
        let ghost models = input_models(inputs@);
        let nd = choreo.inputs.len();
        if inputs.len() != nd {
            return Result::Err(ChorError::InputMismatch);
        }
        let mut k: usize = 0;
        while k < nd
            invariant
                k <= nd,
                nd == inputs@.len(),
                forall|i: int| 0 <= i < k ==> (#[trigger] inputs@[i]).is_present(),
            decreases nd - k,
        {
            if !inputs[k].has_value() {
                return Result::Err(ChorError::InputMismatch);
            }
            k = k + 1;
        }
        if !distinct_names_exec(&choreo.parties) {
            return Result::Err(ChorError::ParticipantNotDeclared);
        }
        let mut env: ValueEnv = Vec::new();
        let mut i: usize = 0;
        while i < choreo.n_vars
            invariant
                i <= choreo.n_vars,
                env@.len() == i,
                forall|j: int| 0 <= j < i ==> env@[j] is None,
            decreases choreo.n_vars - i,
        {
            env.push(Option::None);
            i = i + 1;
        }
        assert(cenv_view(env@) =~= Seq::new(
            choreo.n_vars as nat,
            |j: int| Option::None::<EntryModel>,
        ));
        let mut inputs = inputs;
        let mut d: usize = 0;
        assert(choreo.inputs@.skip(0) =~= choreo.inputs@);
        assert(models.skip(0) =~= models);
        while d < nd
            invariant
                d <= nd,
                nd == choreo.inputs@.len(),
                nd == models.len(),
                env@.len() == choreo.n_vars as nat,
                inputs@.len() == nd - d,
                forall|i2: int| 0 <= i2 < inputs@.len() ==> (#[trigger] inputs@[i2]).is_present(),
                forall|i2: int|
                    0 <= i2 < inputs@.len() ==> view_of((#[trigger] inputs@[i2]).opt().unwrap())
                        == models[d + i2],
                init_env(
                    names_of(choreo.parties@),
                    choreo.inputs@,
                    models,
                    Seq::new(choreo.n_vars as nat, |j: int| Option::None::<EntryModel>),
                ) == init_env(
                    names_of(choreo.parties@),
                    choreo.inputs@.skip(d as int),
                    models.skip(d as int),
                    cenv_view(env@),
                ),
            decreases nd - d,
        {
            let decl = &choreo.inputs[d];
            proof {
                assert(choreo.inputs@.skip(d as int)[0] == choreo.inputs@[d as int]);
                assert(cenv_view(env@).len() == env@.len());
                assert(models.skip(d as int)[0] == models[d as int]);
            }
            if decl.var >= env.len() {
                return Result::Err(ChorError::BadVariable);
            }
            if !subset_names_exec(&decl.owners, &choreo.parties) {
                return Result::Err(ChorError::ParticipantNotDeclared);
            }
            let ml = inputs.remove(0);
            let v = ml.into_value();
            let ghost before = env@;
            env.set(decl.var, Option::Some((clone_names(&decl.owners), v)));
            proof {
                assert(choreo.inputs@.skip(d as int).drop_first() =~= choreo.inputs@.skip(d + 1));
                assert(models.skip(d as int).drop_first() =~= models.skip(d + 1));
                assert(cenv_view(env@) =~= cenv_view(before).update(
                    choreo.inputs@[d as int].var as int,
                    Option::Some(
                        EntryModel {
                            owners: names_of(choreo.inputs@[d as int].owners@),
                            val: models[d as int],
                        },
                    ),
                ));
            }
            d = d + 1;
        }
        assert(choreo.inputs@.skip(nd as int) =~= Seq::<crate::choreo::InputDecl>::empty());
        assert(models.skip(nd as int) =~= Seq::<crate::value::ValModel>::empty());
        match run_prog(&choreo.body, &choreo.parties, &mut env) {
            Result::Ok((_os, v)) => Result::Ok((v, env)),
            Result::Err(e) => Result::Err(e),
        }
    }
}

} // verus!
