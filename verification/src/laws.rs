//! The laws of the operation set, stated over the central semantics.
//!
//! Together with the engine-equivalence contract of
//! [`crate::lockstep::epp_run_all`] — a value is held at a location exactly
//! when the central semantics says that location owns it, and all held
//! copies equal the central value — these laws pin down who observes what
//! after each operation.

use vstd::prelude::*;

use crate::choreo::{ChoreoOp, LocalComputation};
use crate::sem::{names_of, sem_op, sem_prog, CEnv};
use crate::value::spec_guard;

verus! {

/// Location isolation: a `locally` step benefits its location alone.  Every
/// location other than `at` does not own the result, and no other variable
/// changes — projected at such a location, the step has no effect at all.
pub proof fn lemma_locally_isolation<C: LocalComputation>(
    bind: usize,
    at: String,
    comp: C,
    args: Vec<usize>,
    active: Seq<Seq<char>>,
    env: CEnv,
    p: Seq<char>,
)
    requires
        sem_op(ChoreoOp::Locally { bind, at, comp, args }, active, env) is Ok,
        p != at@,
    ensures
        ({
            let e2 = sem_op(ChoreoOp::Locally { bind, at, comp, args }, active, env).unwrap();
            &&& !e2[bind as int].unwrap().owners.contains(p)
            &&& forall|j: int| 0 <= j < e2.len() && j != bind ==> e2[j] == env[j]
        }),
{
    let e2 = sem_op(ChoreoOp::Locally { bind, at, comp, args }, active, env).unwrap();
    crate::sem::lemma_singleton_contains(at@, p);
}

/// Communication fidelity: a `comm` hands the receiver the very value the
/// sender held, and the receiver alone owns it afterwards.
pub proof fn lemma_comm_fidelity<C: LocalComputation>(
    bind: usize,
    from: String,
    to: String,
    arg: usize,
    active: Seq<Seq<char>>,
    env: CEnv,
)
    requires
        sem_op(ChoreoOp::<C>::Comm { bind, from, to, arg }, active, env) is Ok,
    ensures
        ({
            let e2 = sem_op(ChoreoOp::<C>::Comm { bind, from, to, arg }, active, env).unwrap();
            &&& e2[bind as int].unwrap().val == env[arg as int].unwrap().val
            &&& e2[bind as int].unwrap().owners == seq![to@]
        }),
{
}

/// Broadcast convergence: after a `broadcast`, every active participant owns
/// the result, and it is the sender's value — so by the agreement contract
/// of the distributed runs, all of them observe the identical plain value.
pub proof fn lemma_broadcast_convergence<C: LocalComputation>(
    bind: usize,
    from: String,
    arg: usize,
    active: Seq<Seq<char>>,
    env: CEnv,
    p: Seq<char>,
)
    requires
        sem_op(ChoreoOp::<C>::Broadcast { bind, from, arg }, active, env) is Ok,
        active.contains(p),
    ensures
        ({
            let e2 = sem_op(ChoreoOp::<C>::Broadcast { bind, from, arg }, active, env).unwrap();
            &&& e2[bind as int].unwrap().owners.contains(p)
            &&& e2[bind as int].unwrap().val == env[arg as int].unwrap().val
        }),
{
}

/// Enclave absence: the result of an `enclave` is owned only within its
/// party set — every location outside observes it as fully absent — while
/// inside the party set it is exactly the sub-choreography's own result.
pub proof fn lemma_enclave_absence<C: LocalComputation>(
    bind: usize,
    parties: Vec<String>,
    body: Box<crate::choreo::Program<C>>,
    active: Seq<Seq<char>>,
    env: CEnv,
    p: Seq<char>,
)
    requires
        sem_op(ChoreoOp::Enclave { bind, parties, body }, active, env) is Ok,
        !names_of(parties@).contains(p),
    ensures
        ({
            let e2 = sem_op(ChoreoOp::Enclave { bind, parties, body }, active, env).unwrap();
            &&& !e2[bind as int].unwrap().owners.contains(p)
            &&& e2[bind as int] == Some(sem_prog(*body, names_of(parties@), env).unwrap().1)
        }),
{
    let e2 = sem_op(ChoreoOp::Enclave { bind, parties, body }, active, env).unwrap();
    let ent = sem_prog(*body, names_of(parties@), env).unwrap().1;
    crate::sem::lemma_subset_not_contains(ent.owners, names_of(parties@), p);
}

/// Branching is decided by a value all active participants share: on
/// success, the guard variable is owned by every one of them, so — by the
/// agreement contract of the distributed runs — they all take the same arm.
pub proof fn lemma_branch_agreement<C: LocalComputation>(
    bind: usize,
    cond: usize,
    then_prog: Box<crate::choreo::Program<C>>,
    else_prog: Box<crate::choreo::Program<C>>,
    active: Seq<Seq<char>>,
    env: CEnv,
    p: Seq<char>,
)
    requires
        sem_op(ChoreoOp::Branch { bind, cond, then_prog, else_prog }, active, env) is Ok,
        active.contains(p),
    ensures
        env[cond as int].unwrap().owners.contains(p),
        sem_op(ChoreoOp::Branch { bind, cond, then_prog, else_prog }, active, env).unwrap()[
            bind as int
        ].unwrap() == sem_prog(
            if spec_guard(env[cond as int].unwrap().val) {
                *then_prog
            } else {
                *else_prog
            },
            active,
            env,
        ).unwrap().1,
{
}

} // verus!
