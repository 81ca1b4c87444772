//! The choreography language.
//!
//! A choreography is a single program describing a whole multi-party
//! protocol.  It declares its participant set, a number of variables, a list
//! of located inputs, and a body: a sequence of choreographic operations.
//! Each operation binds one variable; a variable, once bound, holds a value
//! together with the set of locations that own it.  The body of an `Enclave`
//! or of a `Branch` runs in a copy of the environment: only its result
//! binding is visible afterwards.
//!
//! Fan-out, fan-in and parallel computation are derived forms: iterate the
//! sub-group and emit one `Locally` or `Comm` per member, then aggregate
//! the bound variables with a final `Locally` — the collaborative protocol
//! in [`crate::bookseller`] gathers a fan-in this way, and
//! [`crate::located::Quire`] and [`crate::located::Faceted`] carry such
//! aggregates keyed by location name.

use vstd::prelude::*;

use crate::value::{view_of, ValModel, Value};

verus! {

/// A local computation that a `Locally` operation can run.  The executable
/// `apply` is pinned to the mathematical `spec_apply`, so the engine's
/// semantics is independent of how the computation is implemented.
pub trait LocalComputation: Sized {
    /// What the computation returns, as a function of its arguments' images.
    spec fn spec_apply(&self, args: Seq<ValModel>) -> ValModel;

    /// Runs the computation on the values of its argument variables.
    fn apply(&self, args: &Vec<Value>) -> (r: Value)
        ensures
            view_of(r) == self.spec_apply(args@.map_values(|v: Value| view_of(v))),
    ;
}

/// Declares one input of a choreography: which variable it binds and which
/// locations own it.
pub struct InputDecl {
    /// The variable the input binds.
    pub var: usize,
    /// The locations that own the input.
    pub owners: Vec<String>,
}

/// One choreographic operation.  Every operation binds the variable `bind`.
pub enum ChoreoOp<C> {
    /// Runs `comp` at `at` on the values of `args`, all of which must be
    /// owned at `at`; the result is owned by `at` alone.
    Locally { bind: usize, at: String, comp: C, args: Vec<usize> },
    /// Sends the value of `arg`, owned at `from`, to `to`; the result is
    /// owned by `to` alone.  When `from == to` the value makes a local round
    /// trip through the codec instead of crossing a transport.
    Comm { bind: usize, from: String, to: String, arg: usize },
    /// Sends the value of `arg`, owned at `from`, to every other active
    /// participant; the result is owned by all of them.
    Broadcast { bind: usize, from: String, arg: usize },
    /// Sends the value of `arg`, owned at `from`, to the locations in
    /// `dests`; the result is owned by `dests` and by `from`.
    Multicast { bind: usize, from: String, dests: Vec<String>, arg: usize },
    /// Runs `body` among the sub-set `parties` only.  Participants outside
    /// `parties` take no step and see the result as absent.
    Enclave { bind: usize, parties: Vec<String>, body: Box<Program<C>> },
    /// Runs one of two programs depending on the value of `cond`, which must
    /// be owned by every active participant — branching is only sound on a
    /// value all of them share, such as a broadcast result.  A guard that is
    /// not the boolean `true` selects the second program.
    Branch { bind: usize, cond: usize, then_prog: Box<Program<C>>, else_prog: Box<Program<C>> },
}

/// A program: a sequence of operations ending with the variable it returns.
pub enum Program<C> {
    /// Returns the value and ownership of a variable.
    Ret(usize),
    /// Runs one operation, then the rest.
    Then(ChoreoOp<C>, Box<Program<C>>),
}

/// A whole choreography: participant set, variable count, input declarations
/// and body.
pub struct Choreography<C> {
    /// The declared participant set.
    pub parties: Vec<String>,
    /// The number of variables the body may use.
    pub n_vars: usize,
    /// The located inputs, bound before the body runs.
    pub inputs: Vec<InputDecl>,
    /// The body.
    pub body: Program<C>,
}

} // verus!
