//! Fan-out, fan-in and parallel computation, as derived forms.
//!
//! The three one-to-many shapes of the operation set are iterations of the
//! core operations over a sub-group: these builders emit the per-member
//! sequence — one `Comm` per recipient or sender, one `Locally` per
//! computing member — in front of a continuation program, and the fan-in
//! aggregates the gathered variables with one final `Locally` at the
//! receiver.  The contracts pin the emitted operations one by one, so the
//! semantics of a fanned program follows from the engines' contracts the
//! same way as for a hand-written one.

use vstd::prelude::*;

use crate::choreo::{ChoreoOp, LocalComputation, Program};

verus! {

/// The operations of a program, in order.
pub open spec fn prog_ops<C>(p: Program<C>) -> Seq<ChoreoOp<C>>
    decreases p,
{
    match p {
        Program::Ret(_) => Seq::empty(),
        Program::Then(op, rest) => seq![op] + prog_ops(*rest),
    }
}

/// The variable a program returns.
pub open spec fn prog_ret<C>(p: Program<C>) -> usize
    decreases p,
{
    match p {
        Program::Ret(v) => v,
        Program::Then(_, rest) => prog_ret(*rest),
    }
}

/// Fan-out: from a fixed origin, one communication per recipient, carrying
/// the origin's variable `arg` and binding `bind_base + k` for the k-th
/// recipient; the continuation follows.
pub fn fan_out<C: LocalComputation>(
    origin: &String,
    recipients: &Vec<String>,
    arg: usize,
    bind_base: usize,
    rest: Program<C>,
) -> (r: Program<C>)
    requires
        bind_base + recipients@.len() <= usize::MAX,
    ensures
        prog_ops(r).len() == recipients@.len() + prog_ops(rest).len(),
        forall|k: int|
            0 <= k < recipients@.len() ==> ((#[trigger] prog_ops(r)[k]) matches ChoreoOp::Comm {
                bind,
                from,
                to,
                arg: a,
            } && bind == bind_base + k && from@ == origin@ && to@ == recipients@[k]@ && a == arg),
        forall|k: int|
            recipients@.len() <= k < prog_ops(r).len() ==> #[trigger] prog_ops(r)[k] == prog_ops(
                rest,
            )[k - recipients@.len()],
        prog_ret(r) == prog_ret(rest),
{
    let ghost rest_ops = prog_ops(rest);
    let ghost rest_ret = prog_ret(rest);
    let n = recipients.len();
    let mut p = rest;
    let mut k = n;
    while k > 0
        invariant
            k <= n,
            n == recipients@.len(),
            bind_base + n <= usize::MAX,
            prog_ops(p).len() == (n - k) + rest_ops.len(),
            forall|j: int|
                0 <= j < n - k ==> ((#[trigger] prog_ops(p)[j]) matches ChoreoOp::Comm {
                    bind,
                    from,
                    to,
                    arg: a,
                } && bind == bind_base + k + j && from@ == origin@ && to@ == recipients@[k + j]@
                    && a == arg),
            forall|j: int|
                n - k <= j < prog_ops(p).len() ==> #[trigger] prog_ops(p)[j] == rest_ops[j - (n
                    - k)],
            prog_ret(p) == rest_ret,
        decreases k,
    {
        k = k - 1;
        let ghost prev = p;
        let op = ChoreoOp::Comm {
            bind: bind_base + k,
            from: origin.clone(),
            to: recipients[k].clone(),
            arg,
        };
        let ghost gop = op;
        p = Program::Then(op, Box::new(p));
        proof {
            assert(prog_ops(p) =~= seq![gop] + prog_ops(prev));
        }
    }
    p
}

/// Fan-in: one communication per sender, carrying that sender's variable
/// `args[k]` to the receiver and binding `bind_base + k`; then one local
/// aggregation at the receiver over all the gathered variables, binding
/// `gather_bind`; the continuation follows.
#[verifier::loop_isolation(false)]
pub fn fan_in<C: LocalComputation>(
    senders: &Vec<String>,
    receiver: &String,
    args: &Vec<usize>,
    bind_base: usize,
    gather: C,
    gather_bind: usize,
    rest: Program<C>,
) -> (r: Program<C>)
    requires
        args@.len() == senders@.len(),
        bind_base + senders@.len() <= usize::MAX,
    ensures
        prog_ops(r).len() == senders@.len() + 1 + prog_ops(rest).len(),
        forall|k: int|
            0 <= k < senders@.len() ==> ((#[trigger] prog_ops(r)[k]) matches ChoreoOp::Comm {
                bind,
                from,
                to,
                arg: a,
            } && bind == bind_base + k && from@ == senders@[k]@ && to@ == receiver@ && a
                == args@[k]),
        (prog_ops(r)[senders@.len() as int] matches ChoreoOp::Locally { bind, at, comp, args: ga }
            && bind == gather_bind && at@ == receiver@ && comp == gather && ga@.len()
            == senders@.len() && (forall|k: int|
            0 <= k < senders@.len() ==> #[trigger] ga@[k] == bind_base + k)),
        forall|k: int|
            senders@.len() + 1 <= k < prog_ops(r).len() ==> #[trigger] prog_ops(r)[k] == prog_ops(
                rest,
            )[k - senders@.len() - 1],
        prog_ret(r) == prog_ret(rest),
{
    let ghost rest_ops = prog_ops(rest);
    let ghost rest_ret = prog_ret(rest);
    let n = senders.len();
    let mut gather_args: Vec<usize> = Vec::new();
    let mut i: usize = 0;
    while i < n
        invariant
            i <= n,
            gather_args@.len() == i,
            forall|k: int| 0 <= k < i ==> #[trigger] gather_args@[k] == bind_base + k,
        decreases n - i,
    {
        gather_args.push(bind_base + i);
        i = i + 1;
    }
    let gop = ChoreoOp::Locally {
        bind: gather_bind,
        at: receiver.clone(),
        comp: gather,
        args: gather_args,
    };
    let ghost ggop = gop;
    let with_gather = Program::Then(gop, Box::new(rest));
    proof {
        assert(prog_ops(with_gather) =~= seq![ggop] + rest_ops);
    }
    let ghost mid_ops = prog_ops(with_gather);
    let mut p = with_gather;
    let mut k = n;
    while k > 0
        invariant
            k <= n,
            prog_ops(p).len() == (n - k) + mid_ops.len(),
            forall|j: int|
                0 <= j < n - k ==> ((#[trigger] prog_ops(p)[j]) matches ChoreoOp::Comm {
                    bind,
                    from,
                    to,
                    arg: a,
                } && bind == bind_base + k + j && from@ == senders@[k + j]@ && to@ == receiver@
                    && a == args@[k + j]),
            forall|j: int|
                n - k <= j < prog_ops(p).len() ==> #[trigger] prog_ops(p)[j] == mid_ops[j - (n
                    - k)],
            prog_ret(p) == rest_ret,
        decreases k,
    {
        k = k - 1;
        let ghost prev = p;
        let op = ChoreoOp::Comm {
            bind: bind_base + k,
            from: senders[k].clone(),
            to: receiver.clone(),
            arg: args[k],
        };
        let ghost gop2 = op;
        p = Program::Then(op, Box::new(p));
        proof {
            assert(prog_ops(p) =~= seq![gop2] + prog_ops(prev));
        }
    }
    p
}

/// Parallel computation: each member of `locations` evaluates its own
/// computation independently — one `Locally` per member, with no arguments
/// and no communication — binding `bind_base + k` for the k-th member; the
/// continuation follows.  `comps` supplies one computation per member.
pub fn parallel<C: LocalComputation>(
    locations: &Vec<String>,
    comps: Vec<C>,
    bind_base: usize,
    rest: Program<C>,
) -> (r: Program<C>)
    requires
        comps@.len() == locations@.len(),
        bind_base + locations@.len() <= usize::MAX,
    ensures
        prog_ops(r).len() == locations@.len() + prog_ops(rest).len(),
        forall|k: int|
            0 <= k < locations@.len() ==> ((#[trigger] prog_ops(r)[k]) matches ChoreoOp::Locally {
                bind,
                at,
                comp,
                args: a,
            } && bind == bind_base + k && at@ == locations@[k]@ && comp == comps@[k] && a@.len()
                == 0),
        forall|k: int|
            locations@.len() <= k < prog_ops(r).len() ==> #[trigger] prog_ops(r)[k] == prog_ops(
                rest,
            )[k - locations@.len()],
        prog_ret(r) == prog_ret(rest),
{
    let ghost all_comps = comps@;
    let ghost rest_ops = prog_ops(rest);
    let ghost rest_ret = prog_ret(rest);
    let n = locations.len();
    let mut comps = comps;
    let mut p = rest;
    let mut k = n;
    assert(all_comps.take(n as int) =~= all_comps);
    while k > 0
        invariant
            k <= n,
            n == locations@.len(),
            all_comps.len() == n,
            bind_base + n <= usize::MAX,
            comps@ == all_comps.take(k as int),
            prog_ops(p).len() == (n - k) + rest_ops.len(),
            forall|j: int|
                0 <= j < n - k ==> ((#[trigger] prog_ops(p)[j]) matches ChoreoOp::Locally {
                    bind,
                    at,
                    comp,
                    args: a,
                } && bind == bind_base + k + j && at@ == locations@[k + j]@ && comp == all_comps[k
                    + j] && a@.len() == 0),
            forall|j: int|
                n - k <= j < prog_ops(p).len() ==> #[trigger] prog_ops(p)[j] == rest_ops[j - (n
                    - k)],
            prog_ret(p) == rest_ret,
        decreases k,
    {
        k = k - 1;
        assert(comps@.len() == k + 1);
        let comp = match comps.pop() {
            Option::Some(c) => c,
            Option::None => vstd::pervasive::unreached(),
        };
        assert(comps@ =~= all_comps.take(k as int));
        assert(comp == all_comps[k as int]) by {
            assert(all_comps.take(k + 1).last() == all_comps[k as int]);
        }
        let ghost prev = p;
        let op = ChoreoOp::Locally {
            bind: bind_base + k,
            at: locations[k].clone(),
            comp,
            args: Vec::new(),
        };
        let ghost gop = op;
        p = Program::Then(op, Box::new(p));
        proof {
            assert(prog_ops(p) =~= seq![gop] + prog_ops(prev));
        }
    }
    p
}

} // verus!
