//! The semantics of choreographies.
//!
//! Two specification-level interpreters share one environment discipline: an
//! environment maps each variable to `None` (unbound) or to an entry holding
//! the set of owning locations and — in the full semantics — the value.
//!
//! - [`sem_prog`] is the central semantics: the meaning of a choreography,
//!   values included.  The `Runner` is verified against it.
//! - [`osem_prog`] is the ownership semantics: it ignores values and computes
//!   only which locations own which variable, together with every
//!   declaration-level error.  It is what a single participant can compute
//!   without seeing anybody else's data, and the `Projector` is verified
//!   against it.
//!
//! [`lemma_sem_osem_agree`] ties them together: the central semantics
//! succeeds exactly when the ownership semantics does, with the same error
//! otherwise and the same ownership everywhere on success.  This is what lets
//! every participant agree, step by step, on the shape of the protocol while
//! only some of them hold the data.

use vstd::prelude::*;

use crate::choreo::{Choreography, ChoreoOp, InputDecl, LocalComputation, Program};
use crate::error::ChorError;
use crate::value::ValModel;

verus! {

/// What a bound variable holds in the central semantics: its owners and its
/// value.
pub struct EntryModel {
    /// The locations that own the value.
    pub owners: Seq<Seq<char>>,
    /// The value.
    pub val: ValModel,
}

/// The central environment: one optional entry per variable.
pub type CEnv = Seq<Option<EntryModel>>;

/// The ownership environment: one optional owner set per variable.
pub type OEnv = Seq<Option<Seq<Seq<char>>>>;

/// The names of a sequence of locations.
pub open spec fn names_of(locs: Seq<String>) -> Seq<Seq<char>> {
    locs.map_values(|s: String| s@)
}

/// Whether every name in `a` occurs in `b`.
pub open spec fn names_subset(a: Seq<Seq<char>>, b: Seq<Seq<char>>) -> bool {
    forall|i: int| 0 <= i < a.len() ==> b.contains(#[trigger] a[i])
}

/// Whether a sequence of names is free of duplicates.
pub open spec fn names_distinct(s: Seq<Seq<char>>) -> bool {
    forall|a: int, b: int| 0 <= a < b < s.len() ==> s[a] != s[b]
}

/// The owners of a multicast result: the destinations, and the sender if it
/// is not among them.
pub open spec fn owners_with(dests: Seq<Seq<char>>, from: Seq<char>) -> Seq<Seq<char>> {
    if dests.contains(from) {
        dests
    } else {
        dests.push(from)
    }
}

/// The ownership erasure of a central environment.
pub open spec fn erase(env: CEnv) -> OEnv {
    env.map_values(
        |o: Option<EntryModel>|
            match o {
                Option::Some(e) => Option::Some(e.owners),
                Option::None => Option::None,
            },
    )
}

/// Whether every argument variable is bound and owned at `at`.
pub open spec fn args_ok_o(env: OEnv, args: Seq<usize>, at: Seq<char>) -> bool {
    forall|i: int|
        0 <= i < args.len() ==> (#[trigger] args[i]) < env.len() && env[args[i] as int] is Some
            && env[args[i] as int].unwrap().contains(at)
}

/// Whether a variable is bound and owned at `at`.
pub open spec fn var_ok_o(env: OEnv, v: usize, at: Seq<char>) -> bool {
    v < env.len() && env[v as int] is Some && env[v as int].unwrap().contains(at)
}

/// The values of a sequence of argument variables.
pub open spec fn arg_vals(env: CEnv, args: Seq<usize>) -> Seq<ValModel> {
    Seq::new(args.len(), |i: int| env[args[i] as int].unwrap().val)
}

/// The ownership semantics of one operation.
pub open spec fn osem_op<C: LocalComputation>(
    op: ChoreoOp<C>,
    active: Seq<Seq<char>>,
    env: OEnv,
) -> Result<OEnv, ChorError>
    decreases op,
{
    match op {
        ChoreoOp::Locally { bind, at, comp, args } => {
            if bind >= env.len() {
                Result::Err(ChorError::BadVariable)
            } else if !active.contains(at@) {
                Result::Err(ChorError::ParticipantNotDeclared)
            } else if !args_ok_o(env, args@, at@) {
                Result::Err(ChorError::AbsentValue)
            } else {
                Result::Ok(env.update(bind as int, Option::Some(seq![at@])))
            }
        },
        ChoreoOp::Comm { bind, from, to, arg } => {
            if bind >= env.len() {
                Result::Err(ChorError::BadVariable)
            } else if !active.contains(from@) || !active.contains(to@) {
                Result::Err(ChorError::ParticipantNotDeclared)
            } else if !var_ok_o(env, arg, from@) {
                Result::Err(ChorError::AbsentValue)
            } else {
                Result::Ok(env.update(bind as int, Option::Some(seq![to@])))
            }
        },
        ChoreoOp::Broadcast { bind, from, arg } => {
            if bind >= env.len() {
                Result::Err(ChorError::BadVariable)
            } else if !active.contains(from@) {
                Result::Err(ChorError::ParticipantNotDeclared)
            } else if !var_ok_o(env, arg, from@) {
                Result::Err(ChorError::AbsentValue)
            } else {
                Result::Ok(env.update(bind as int, Option::Some(active)))
            }
        },
        ChoreoOp::Multicast { bind, from, dests, arg } => {
            if bind >= env.len() {
                Result::Err(ChorError::BadVariable)
            } else if !active.contains(from@) || !names_subset(names_of(dests@), active) {
                Result::Err(ChorError::ParticipantNotDeclared)
            } else if !var_ok_o(env, arg, from@) {
                Result::Err(ChorError::AbsentValue)
            } else {
                Result::Ok(
                    env.update(bind as int, Option::Some(owners_with(names_of(dests@), from@))),
                )
            }
        },
        ChoreoOp::Enclave { bind, parties, body } => {
            if bind >= env.len() {
                Result::Err(ChorError::BadVariable)
            } else if !names_subset(names_of(parties@), active) || !names_distinct(
                names_of(parties@),
            ) {
                Result::Err(ChorError::ParticipantNotDeclared)
            } else {
                match osem_prog(*body, names_of(parties@), env) {
                    Result::Ok((_benv, ro)) => {
                        if names_subset(ro, names_of(parties@)) {
                            Result::Ok(env.update(bind as int, Option::Some(ro)))
                        } else {
                            Result::Err(ChorError::EnclaveResultEscapes)
                        }
                    },
                    Result::Err(e) => Result::Err(e),
                }
            }
        },
        ChoreoOp::Branch { bind, cond, then_prog, else_prog } => {
            if bind >= env.len() || cond >= env.len() || !(env[cond as int] is Some) {
                Result::Err(ChorError::BadVariable)
            } else if !names_subset(active, env[cond as int].unwrap()) {
                Result::Err(ChorError::UnsharedGuard)
            } else {
                match (osem_prog(*then_prog, active, env), osem_prog(*else_prog, active, env)) {
                    (Result::Ok((_e1, ro1)), Result::Ok((_e2, ro2))) => {
                        if ro1 == ro2 {
                            Result::Ok(env.update(bind as int, Option::Some(ro1)))
                        } else {
                            Result::Err(ChorError::DivergentBranches)
                        }
                    },
                    (Result::Err(e), _) => Result::Err(e),
                    (_, Result::Err(e)) => Result::Err(e),
                }
            }
        },
    }
}

/// The ownership semantics of a program: the final environment and the
/// owners of the returned variable.
pub open spec fn osem_prog<C: LocalComputation>(
    p: Program<C>,
    active: Seq<Seq<char>>,
    env: OEnv,
) -> Result<(OEnv, Seq<Seq<char>>), ChorError>
    decreases p,
{
    match p {
        Program::Ret(v) => {
            if v < env.len() && env[v as int] is Some {
                Result::Ok((env, env[v as int].unwrap()))
            } else {
                Result::Err(ChorError::BadVariable)
            }
        },
        Program::Then(op, rest) => match osem_op(op, active, env) {
            Result::Ok(env2) => osem_prog(*rest, active, env2),
            Result::Err(e) => Result::Err(e),
        },
    }
}

/// The central semantics of one operation.  Its checks are those of
/// [`osem_op`], in the same order; on success it additionally records the
/// values.
pub open spec fn sem_op<C: LocalComputation>(
    op: ChoreoOp<C>,
    active: Seq<Seq<char>>,
    env: CEnv,
) -> Result<CEnv, ChorError>
    decreases op,
{
    match op {
        ChoreoOp::Locally { bind, at, comp, args } => {
            if bind >= env.len() {
                Result::Err(ChorError::BadVariable)
            } else if !active.contains(at@) {
                Result::Err(ChorError::ParticipantNotDeclared)
            } else if !args_ok_o(erase(env), args@, at@) {
                Result::Err(ChorError::AbsentValue)
            } else {
                Result::Ok(
                    env.update(
                        bind as int,
                        Option::Some(
                            EntryModel {
                                owners: seq![at@],
                                val: comp.spec_apply(arg_vals(env, args@)),
                            },
                        ),
                    ),
                )
            }
        },
        ChoreoOp::Comm { bind, from, to, arg } => {
            if bind >= env.len() {
                Result::Err(ChorError::BadVariable)
            } else if !active.contains(from@) || !active.contains(to@) {
                Result::Err(ChorError::ParticipantNotDeclared)
            } else if !var_ok_o(erase(env), arg, from@) {
                Result::Err(ChorError::AbsentValue)
            } else {
                Result::Ok(
                    env.update(
                        bind as int,
                        Option::Some(
                            EntryModel { owners: seq![to@], val: env[arg as int].unwrap().val },
                        ),
                    ),
                )
            }
        },
        ChoreoOp::Broadcast { bind, from, arg } => {
            if bind >= env.len() {
                Result::Err(ChorError::BadVariable)
            } else if !active.contains(from@) {
                Result::Err(ChorError::ParticipantNotDeclared)
            } else if !var_ok_o(erase(env), arg, from@) {
                Result::Err(ChorError::AbsentValue)
            } else {
                Result::Ok(
                    env.update(
                        bind as int,
                        Option::Some(
                            EntryModel { owners: active, val: env[arg as int].unwrap().val },
                        ),
                    ),
                )
            }
        },
        ChoreoOp::Multicast { bind, from, dests, arg } => {
            if bind >= env.len() {
                Result::Err(ChorError::BadVariable)
            } else if !active.contains(from@) || !names_subset(names_of(dests@), active) {
                Result::Err(ChorError::ParticipantNotDeclared)
            } else if !var_ok_o(erase(env), arg, from@) {
                Result::Err(ChorError::AbsentValue)
            } else {
                Result::Ok(
                    env.update(
                        bind as int,
                        Option::Some(
                            EntryModel {
                                owners: owners_with(names_of(dests@), from@),
                                val: env[arg as int].unwrap().val,
                            },
                        ),
                    ),
                )
            }
        },
        ChoreoOp::Enclave { bind, parties, body } => {
            if bind >= env.len() {
                Result::Err(ChorError::BadVariable)
            } else if !names_subset(names_of(parties@), active) || !names_distinct(
                names_of(parties@),
            ) {
                Result::Err(ChorError::ParticipantNotDeclared)
            } else {
                match sem_prog(*body, names_of(parties@), env) {
                    Result::Ok((_benv, ent)) => {
                        if names_subset(ent.owners, names_of(parties@)) {
                            Result::Ok(env.update(bind as int, Option::Some(ent)))
                        } else {
                            Result::Err(ChorError::EnclaveResultEscapes)
                        }
                    },
                    Result::Err(e) => Result::Err(e),
                }
            }
        },
        ChoreoOp::Branch { bind, cond, then_prog, else_prog } => {
            if bind >= env.len() || cond >= env.len() || !(env[cond as int] is Some) {
                Result::Err(ChorError::BadVariable)
            } else if !names_subset(active, env[cond as int].unwrap().owners) {
                Result::Err(ChorError::UnsharedGuard)
            } else {
                match (
                    osem_prog(*then_prog, active, erase(env)),
                    osem_prog(*else_prog, active, erase(env)),
                ) {
                    (Result::Ok((_e1, ro1)), Result::Ok((_e2, ro2))) => {
                        if ro1 == ro2 {
                            let taken = if crate::value::spec_guard(env[cond as int].unwrap().val) {
                                *then_prog
                            } else {
                                *else_prog
                            };
                            match sem_prog(taken, active, env) {
                                Result::Ok((_benv, ent)) => Result::Ok(
                                    env.update(bind as int, Option::Some(ent)),
                                ),
                                Result::Err(e) => Result::Err(e),
                            }
                        } else {
                            Result::Err(ChorError::DivergentBranches)
                        }
                    },
                    (Result::Err(e), _) => Result::Err(e),
                    (_, Result::Err(e)) => Result::Err(e),
                }
            }
        },
    }
}

/// The central semantics of a program: the final environment and the entry
/// of the returned variable.
pub open spec fn sem_prog<C: LocalComputation>(
    p: Program<C>,
    active: Seq<Seq<char>>,
    env: CEnv,
) -> Result<(CEnv, EntryModel), ChorError>
    decreases p,
{
    match p {
        Program::Ret(v) => {
            if v < env.len() && env[v as int] is Some {
                Result::Ok((env, env[v as int].unwrap()))
            } else {
                Result::Err(ChorError::BadVariable)
            }
        },
        Program::Then(op, rest) => match sem_op(op, active, env) {
            Result::Ok(env2) => sem_prog(*rest, active, env2),
            Result::Err(e) => Result::Err(e),
        },
    }
}

/// The initial central environment: each input declaration binds its
/// variable with the declared owners and the supplied value.
pub open spec fn init_env(
    parties: Seq<Seq<char>>,
    decls: Seq<InputDecl>,
    vals: Seq<ValModel>,
    env: CEnv,
) -> Result<CEnv, ChorError>
    decreases decls.len(),
{
    if decls.len() == 0 {
        Result::Ok(env)
    } else {
        let d = decls[0];
        if d.var >= env.len() {
            Result::Err(ChorError::BadVariable)
        } else if !names_subset(names_of(d.owners@), parties) {
            Result::Err(ChorError::ParticipantNotDeclared)
        } else {
            init_env(
                parties,
                decls.drop_first(),
                vals.drop_first(),
                env.update(
                    d.var as int,
                    Option::Some(EntryModel { owners: names_of(d.owners@), val: vals[0] }),
                ),
            )
        }
    }
}

/// The central semantics of a whole choreography on the given input values.
pub open spec fn choreo_sem<C: LocalComputation>(
    c: Choreography<C>,
    vals: Seq<ValModel>,
) -> Result<(CEnv, EntryModel), ChorError> {
    if c.inputs.len() != vals.len() {
        Result::Err(ChorError::InputMismatch)
    } else if !names_distinct(names_of(c.parties@)) {
        Result::Err(ChorError::ParticipantNotDeclared)
    } else {
        match init_env(
            names_of(c.parties@),
            c.inputs@,
            vals,
            Seq::new(c.n_vars as nat, |i: int| Option::None),
        ) {
            Result::Ok(env0) => sem_prog(c.body, names_of(c.parties@), env0),
            Result::Err(e) => Result::Err(e),
        }
    }
}

/// The ownership semantics of a whole choreography.
pub open spec fn choreo_osem<C: LocalComputation>(c: Choreography<C>, n_inputs: nat) -> Result<
    (OEnv, Seq<Seq<char>>),
    ChorError,
> {
    if c.inputs.len() != n_inputs {
        Result::Err(ChorError::InputMismatch)
    } else if !names_distinct(names_of(c.parties@)) {
        Result::Err(ChorError::ParticipantNotDeclared)
    } else {
        match init_oenv(
            names_of(c.parties@),
            c.inputs@,
            Seq::new(c.n_vars as nat, |i: int| Option::None),
        ) {
            Result::Ok(env0) => osem_prog(c.body, names_of(c.parties@), env0),
            Result::Err(e) => Result::Err(e),
        }
    }
}

/// The initial ownership environment.
pub open spec fn init_oenv(
    parties: Seq<Seq<char>>,
    decls: Seq<InputDecl>,
    env: OEnv,
) -> Result<OEnv, ChorError>
    decreases decls.len(),
{
    if decls.len() == 0 {
        Result::Ok(env)
    } else {
        let d = decls[0];
        if d.var >= env.len() {
            Result::Err(ChorError::BadVariable)
        } else if !names_subset(names_of(d.owners@), parties) {
            Result::Err(ChorError::ParticipantNotDeclared)
        } else {
            init_oenv(
                parties,
                decls.drop_first(),
                env.update(d.var as int, Option::Some(names_of(d.owners@))),
            )
        }
    }
}

/// Membership in a singleton owner set.
pub proof fn lemma_singleton_contains(a: Seq<char>, x: Seq<char>)
    ensures
        seq![a].contains(x) == (a == x),
{
    if seq![a].contains(x) {
        let i = choose|i: int| 0 <= i < seq![a].len() && seq![a][i] == x;
        assert(i == 0);
    }
    if a == x {
        assert(seq![a][0] == x);
    }
}

/// Membership in a multicast owner set.
pub proof fn lemma_owners_with_contains(dests: Seq<Seq<char>>, from: Seq<char>, x: Seq<char>)
    ensures
        owners_with(dests, from).contains(x) == (dests.contains(x) || x == from),
{
    let os = owners_with(dests, from);
    if dests.contains(from) {
        if os.contains(x) {
        }
        if dests.contains(x) {
        }
        if x == from {
        }
    } else {
        if os.contains(x) {
            let i = choose|i: int| 0 <= i < os.len() && os[i] == x;
            if i < dests.len() {
                assert(dests[i] == x);
            } else {
                assert(x == from);
            }
        }
        if dests.contains(x) {
            let i = choose|i: int| 0 <= i < dests.len() && dests[i] == x;
            assert(os[i] == x);
        }
        if x == from {
            assert(os[os.len() - 1] == x);
        }
    }
}

/// A subset of a set that avoids `x` avoids `x` too.
pub proof fn lemma_subset_not_contains(a: Seq<Seq<char>>, b: Seq<Seq<char>>, x: Seq<char>)
    requires
        names_subset(a, b),
        !b.contains(x),
    ensures
        !a.contains(x),
{
    if a.contains(x) {
        let i = choose|i: int| 0 <= i < a.len() && a[i] == x;
        assert(b.contains(a[i]));
    }
}

/// Erasing an update commutes with updating the erasure.
proof fn lemma_erase_update(env: CEnv, i: int, os: Seq<Seq<char>>, v: ValModel)
    requires
        0 <= i < env.len(),
    ensures
        erase(env.update(i, Option::Some(EntryModel { owners: os, val: v }))) == erase(env).update(
            i,
            Option::Some(os),
        ),
{
    assert(erase(env.update(i, Option::Some(EntryModel { owners: os, val: v }))) =~= erase(
        env,
    ).update(i, Option::Some(os)));
}

/// The central and the ownership semantics of one operation agree: same
/// error, or same ownership of the results.
pub proof fn lemma_op_erase<C: LocalComputation>(
    op: ChoreoOp<C>,
    active: Seq<Seq<char>>,
    env: CEnv,
)
    ensures
        match (sem_op(op, active, env), osem_op(op, active, erase(env))) {
            (Result::Ok(e1), Result::Ok(e2)) => erase(e1) == e2,
            (Result::Err(a), Result::Err(b)) => a == b,
            _ => false,
        },
    decreases op,
{
    let oenv = erase(env);
    match op {
        ChoreoOp::Locally { bind, at, comp, args } => {
            if bind < env.len() && active.contains(at@) && args_ok_o(oenv, args@, at@) {
                lemma_erase_update(env, bind as int, seq![at@], comp.spec_apply(arg_vals(env, args@)));
            }
        },
        ChoreoOp::Comm { bind, from, to, arg } => {
            if bind < env.len() && active.contains(from@) && active.contains(to@) && var_ok_o(
                oenv,
                arg,
                from@,
            ) {
                lemma_erase_update(env, bind as int, seq![to@], env[arg as int].unwrap().val);
            }
        },
        ChoreoOp::Broadcast { bind, from, arg } => {
            if bind < env.len() && active.contains(from@) && var_ok_o(oenv, arg, from@) {
                lemma_erase_update(env, bind as int, active, env[arg as int].unwrap().val);
            }
        },
        ChoreoOp::Multicast { bind, from, dests, arg } => {
            if bind < env.len() && active.contains(from@) && names_subset(names_of(dests@), active)
                && var_ok_o(oenv, arg, from@) {
                lemma_erase_update(
                    env,
                    bind as int,
                    owners_with(names_of(dests@), from@),
                    env[arg as int].unwrap().val,
                );
            }
        },
        ChoreoOp::Enclave { bind, parties, body } => {
            if bind < env.len() && names_subset(names_of(parties@), active) && names_distinct(
                names_of(parties@),
            ) {
                lemma_prog_erase(*body, names_of(parties@), env);
                match sem_prog(*body, names_of(parties@), env) {
                    Result::Ok((_benv, ent)) => {
                        if names_subset(ent.owners, names_of(parties@)) {
                            lemma_erase_update(env, bind as int, ent.owners, ent.val);
                        }
                    },
                    Result::Err(_) => {},
                }
            }
        },
        ChoreoOp::Branch { bind, cond, then_prog, else_prog } => {
            if bind < env.len() && cond < env.len() && env[cond as int] is Some {
                assert(oenv[cond as int] == Option::Some(env[cond as int].unwrap().owners));
                if names_subset(active, env[cond as int].unwrap().owners) {
                    match (
                        osem_prog(*then_prog, active, oenv),
                        osem_prog(*else_prog, active, oenv),
                    ) {
                        (Result::Ok((_e1, ro1)), Result::Ok((_e2, ro2))) => {
                            if ro1 == ro2 {
                                let taken = if crate::value::spec_guard(
                                    env[cond as int].unwrap().val,
                                ) {
                                    *then_prog
                                } else {
                                    *else_prog
                                };
                                lemma_prog_erase(taken, active, env);
                                match sem_prog(taken, active, env) {
                                    Result::Ok((_benv, ent)) => {
                                        lemma_erase_update(env, bind as int, ent.owners, ent.val);
                                    },
                                    Result::Err(_) => {},
                                }
                            }
                        },
                        _ => {},
                    }
                }
            }
        },
    }
}

/// The central and the ownership semantics of a program agree: same error,
/// or same ownership everywhere and of the result.
pub proof fn lemma_prog_erase<C: LocalComputation>(
    p: Program<C>,
    active: Seq<Seq<char>>,
    env: CEnv,
)
    ensures
        match (sem_prog(p, active, env), osem_prog(p, active, erase(env))) {
            (Result::Ok((e1, ent)), Result::Ok((e2, ro))) => erase(e1) == e2 && ent.owners == ro,
            (Result::Err(a), Result::Err(b)) => a == b,
            _ => false,
        },
    decreases p,
{
    match p {
        Program::Ret(v) => {
            if v < env.len() && env[v as int] is Some {
                assert(erase(env)[v as int] == Option::Some(env[v as int].unwrap().owners));
            } else {
                assert(!(erase(env)[v as int] is Some) || v >= erase(env).len());
            }
        },
        Program::Then(op, rest) => {
            lemma_op_erase(op, active, env);
            match sem_op(op, active, env) {
                Result::Ok(env2) => {
                    lemma_prog_erase(*rest, active, env2);
                },
                Result::Err(_) => {},
            }
        },
    }
}

/// The initial environments agree under erasure.
proof fn lemma_init_erase(
    parties: Seq<Seq<char>>,
    decls: Seq<InputDecl>,
    vals: Seq<ValModel>,
    env: CEnv,
)
    ensures
        match (init_env(parties, decls, vals, env), init_oenv(parties, decls, erase(env))) {
            (Result::Ok(e1), Result::Ok(e2)) => erase(e1) == e2,
            (Result::Err(a), Result::Err(b)) => a == b,
            _ => false,
        },
    decreases decls.len(),
{
    if decls.len() == 0 {
    } else {
        let d = decls[0];
        if d.var < env.len() && names_subset(names_of(d.owners@), parties) {
            lemma_erase_update(env, d.var as int, names_of(d.owners@), vals[0]);
            lemma_init_erase(
                parties,
                decls.drop_first(),
                vals.drop_first(),
                env.update(
                    d.var as int,
                    Option::Some(EntryModel { owners: names_of(d.owners@), val: vals[0] }),
                ),
            );
        }
    }
}

/// The central and the ownership semantics of a whole choreography agree:
/// they succeed together, fail with the same error, and on success agree on
/// who owns every variable and the result.
pub proof fn lemma_sem_osem_agree<C: LocalComputation>(c: Choreography<C>, vals: Seq<ValModel>)
    ensures
        match (choreo_sem(c, vals), choreo_osem(c, vals.len())) {
            (Result::Ok((e1, ent)), Result::Ok((e2, ro))) => erase(e1) == e2 && ent.owners == ro,
            (Result::Err(a), Result::Err(b)) => a == b,
            _ => false,
        },
{
    if c.inputs.len() == vals.len() && names_distinct(names_of(c.parties@)) {
        let blank: CEnv = Seq::new(c.n_vars as nat, |i: int| Option::None);
        assert(erase(blank) =~= Seq::new(c.n_vars as nat, |i: int| Option::None::<Seq<Seq<char>>>));
        lemma_init_erase(names_of(c.parties@), c.inputs@, vals, blank);
        match init_env(names_of(c.parties@), c.inputs@, vals, blank) {
            Result::Ok(env0) => {
                lemma_prog_erase(c.body, names_of(c.parties@), env0);
            },
            Result::Err(_) => {},
        }
    }
}

/// Evaluation rule: a program step with a successful operation.
pub proof fn lemma_sem_then<C: LocalComputation>(
    op: ChoreoOp<C>,
    rest: Program<C>,
    active: Seq<Seq<char>>,
    env: CEnv,
    env2: CEnv,
)
    requires
        sem_op(op, active, env) == Result::<CEnv, ChorError>::Ok(env2),
    ensures
        sem_prog(Program::Then(op, Box::new(rest)), active, env) == sem_prog(rest, active, env2),
{
}

/// Evaluation rule: returning a bound variable.
pub proof fn lemma_sem_ret<C: LocalComputation>(v: usize, active: Seq<Seq<char>>, env: CEnv)
    requires
        v < env.len(),
        env[v as int] is Some,
    ensures
        sem_prog(Program::<C>::Ret(v), active, env) == Result::<(CEnv, EntryModel), ChorError>::Ok(
            (env, env[v as int].unwrap()),
        ),
{
}

/// Evaluation rule: a well-formed local computation.
pub proof fn lemma_sem_locally<C: LocalComputation>(
    bind: usize,
    at: String,
    comp: C,
    args: Vec<usize>,
    active: Seq<Seq<char>>,
    env: CEnv,
)
    requires
        bind < env.len(),
        active.contains(at@),
        forall|i: int|
            0 <= i < args@.len() ==> (#[trigger] args@[i]) < env.len() && env[args@[i] as int]
                is Some && env[args@[i] as int].unwrap().owners.contains(at@),
    ensures
        sem_op(ChoreoOp::Locally { bind, at, comp, args }, active, env) == Result::<
            CEnv,
            ChorError,
        >::Ok(
            env.update(
                bind as int,
                Option::Some(
                    EntryModel { owners: seq![at@], val: comp.spec_apply(arg_vals(env, args@)) },
                ),
            ),
        ),
{
    assert forall|i: int|
        0 <= i < args@.len() implies (#[trigger] args@[i]) < erase(env).len() && erase(
        env,
    )[args@[i] as int] is Some && erase(env)[args@[i] as int].unwrap().contains(at@) by {
        assert(erase(env)[args@[i] as int] == Option::Some(env[args@[i] as int].unwrap().owners));
    }
}

/// Evaluation rule: a well-formed communication.
pub proof fn lemma_sem_comm<C: LocalComputation>(
    bind: usize,
    from: String,
    to: String,
    arg: usize,
    active: Seq<Seq<char>>,
    env: CEnv,
)
    requires
        bind < env.len(),
        active.contains(from@),
        active.contains(to@),
        arg < env.len(),
        env[arg as int] is Some,
        env[arg as int].unwrap().owners.contains(from@),
    ensures
        sem_op(ChoreoOp::<C>::Comm { bind, from, to, arg }, active, env) == Result::<
            CEnv,
            ChorError,
        >::Ok(
            env.update(
                bind as int,
                Option::Some(
                    EntryModel { owners: seq![to@], val: env[arg as int].unwrap().val },
                ),
            ),
        ),
{
    assert(erase(env)[arg as int] == Option::Some(env[arg as int].unwrap().owners));
}

/// Evaluation rule: a well-formed broadcast.
pub proof fn lemma_sem_broadcast<C: LocalComputation>(
    bind: usize,
    from: String,
    arg: usize,
    active: Seq<Seq<char>>,
    env: CEnv,
)
    requires
        bind < env.len(),
        active.contains(from@),
        arg < env.len(),
        env[arg as int] is Some,
        env[arg as int].unwrap().owners.contains(from@),
    ensures
        sem_op(ChoreoOp::<C>::Broadcast { bind, from, arg }, active, env) == Result::<
            CEnv,
            ChorError,
        >::Ok(
            env.update(
                bind as int,
                Option::Some(EntryModel { owners: active, val: env[arg as int].unwrap().val }),
            ),
        ),
{
    assert(erase(env)[arg as int] == Option::Some(env[arg as int].unwrap().owners));
}

/// Evaluation rule: a well-formed enclave whose body succeeds with a result
/// owned inside the party set.
pub proof fn lemma_sem_enclave<C: LocalComputation>(
    bind: usize,
    parties: Vec<String>,
    body: Program<C>,
    active: Seq<Seq<char>>,
    env: CEnv,
    benv: CEnv,
    ent: EntryModel,
)
    requires
        bind < env.len(),
        names_subset(names_of(parties@), active),
        names_distinct(names_of(parties@)),
        sem_prog(body, names_of(parties@), env) == Result::<(CEnv, EntryModel), ChorError>::Ok(
            (benv, ent),
        ),
        names_subset(ent.owners, names_of(parties@)),
    ensures
        sem_op(ChoreoOp::Enclave { bind, parties, body: Box::new(body) }, active, env)
            == Result::<CEnv, ChorError>::Ok(env.update(bind as int, Option::Some(ent))),
{
}

/// Evaluation rule: a well-formed branch on a guard every active participant
/// owns, whose arms leave their results with the same owners.
pub proof fn lemma_sem_branch<C: LocalComputation>(
    bind: usize,
    cond: usize,
    then_prog: Program<C>,
    else_prog: Program<C>,
    active: Seq<Seq<char>>,
    env: CEnv,
    benv: CEnv,
    ent: EntryModel,
)
    requires
        bind < env.len(),
        cond < env.len(),
        env[cond as int] is Some,
        names_subset(active, env[cond as int].unwrap().owners),
        sem_prog(then_prog, active, env) is Ok,
        sem_prog(else_prog, active, env) is Ok,
        sem_prog(then_prog, active, env).unwrap().1.owners == sem_prog(
            else_prog,
            active,
            env,
        ).unwrap().1.owners,
        sem_prog(
            if crate::value::spec_guard(env[cond as int].unwrap().val) {
                then_prog
            } else {
                else_prog
            },
            active,
            env,
        ) == Result::<(CEnv, EntryModel), ChorError>::Ok((benv, ent)),
    ensures
        sem_op(
            ChoreoOp::Branch {
                bind,
                cond,
                then_prog: Box::new(then_prog),
                else_prog: Box::new(else_prog),
            },
            active,
            env,
        ) == Result::<CEnv, ChorError>::Ok(env.update(bind as int, Option::Some(ent))),
{
    lemma_prog_erase(then_prog, active, env);
    lemma_prog_erase(else_prog, active, env);
    assert(erase(env)[cond as int] == Option::Some(env[cond as int].unwrap().owners));
}

/// Evaluation rule: binding one input.
pub proof fn lemma_init_step(
    parties: Seq<Seq<char>>,
    decls: Seq<InputDecl>,
    vals: Seq<ValModel>,
    env: CEnv,
)
    requires
        decls.len() > 0,
        decls[0].var < env.len(),
        names_subset(names_of(decls[0].owners@), parties),
    ensures
        init_env(parties, decls, vals, env) == init_env(
            parties,
            decls.drop_first(),
            vals.drop_first(),
            env.update(
                decls[0].var as int,
                Option::Some(EntryModel { owners: names_of(decls[0].owners@), val: vals[0] }),
            ),
        ),
{
}

} // verus!
