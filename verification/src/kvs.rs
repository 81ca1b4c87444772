//! A primary/backup key-value store, written as a choreography.
//!
//! Three participants: a client sends a request to a primary; for a mutating
//! request the primary and the backup run a replication sub-protocol in an
//! enclave the client takes no part in; the primary answers the client.
//! The store's state is threaded through the choreography as a located
//! value: an association list of key/value pairs, newest entry first.

use vstd::prelude::*;
use vstd::string::StringExecFns;
use vstd::string::StrSliceExecFns;

use crate::choreo::{Choreography, ChoreoOp, InputDecl, LocalComputation, Program};
use crate::location::ChoreographyLocation;
use crate::sem::{arg_vals, names_of};
use crate::value::{view_of, ValModel, Value};

verus! {

/// The client participant.
#[derive(Clone, Copy)]
pub struct Client;

/// The primary participant.
#[derive(Clone, Copy)]
pub struct Primary;

/// The backup participant.
#[derive(Clone, Copy)]
pub struct Backup;

impl ChoreographyLocation for Client {
    open spec fn spec_name() -> Seq<char> {
        "Client"@
    }

    fn new() -> Self {
        Client
    }

    fn name() -> (r: &'static str) {
        "Client"
    }
}

impl ChoreographyLocation for Primary {
    open spec fn spec_name() -> Seq<char> {
        "Primary"@
    }

    fn new() -> Self {
        Primary
    }

    fn name() -> (r: &'static str) {
        "Primary"
    }
}

impl ChoreographyLocation for Backup {
    open spec fn spec_name() -> Seq<char> {
        "Backup"@
    }

    fn new() -> Self {
        Backup
    }

    fn name() -> (r: &'static str) {
        "Backup"
    }
}

/// A request against the store.
#[derive(Debug, PartialEq)]
pub enum Request {
    /// Bind a key to a value.
    Put(String, String),
    /// Read the value bound to a key.
    Get(String),
}

impl Request {
    /// Whether the request changes the store's state.
    pub fn is_mutating(&self) -> (r: bool)
        ensures
            r == (self is Put),
    {
        match self {
            Request::Put(_, _) => true,
            Request::Get(_) => false,
        }
    }

    /// The portable image of the request: a tag and the payload.
    pub open spec fn spec_value(self) -> ValModel {
        match self {
            Request::Put(k, v) => ValModel::Pair(
                Box::new(ValModel::B(true)),
                Box::new(ValModel::Pair(Box::new(ValModel::S(k@)), Box::new(ValModel::S(v@)))),
            ),
            Request::Get(k) => ValModel::Pair(
                Box::new(ValModel::B(false)),
                Box::new(ValModel::S(k@)),
            ),
        }
    }

    /// Encodes the request as a portable value.
    pub fn to_value(&self) -> (r: Value)
        ensures
            view_of(r) == self.spec_value(),
    {
        proof {
            reveal_with_fuel(view_of, 6);
        }
        match self {
            Request::Put(k, v) => Value::Pair(
                Box::new(Value::B(true)),
                Box::new(Value::Pair(Box::new(Value::S(k.clone())), Box::new(Value::S(v.clone())))),
            ),
            Request::Get(k) => Value::Pair(
                Box::new(Value::B(false)),
                Box::new(Value::S(k.clone())),
            ),
        }
    }
}

/// The empty store state.
pub open spec fn spec_empty_state() -> ValModel {
    ValModel::Unit
}

/// The empty store state, as a value: states are association lists built
/// from pairs, newest entry first, ending in the unit value.
pub fn empty_state() -> (r: Value)
    ensures
        view_of(r) == spec_empty_state(),
{
    Value::Unit
}

/// The value bound to a key in a store state: the newest binding wins.
pub open spec fn vm_lookup(state: ValModel, key: Seq<char>) -> ValModel
    decreases state,
{
    match state {
        ValModel::Pair(entry, rest) => match *entry {
            ValModel::Pair(ek, ev) => {
                if *ek == ValModel::S(key) {
                    ValModel::Opt(Option::Some(ev))
                } else {
                    vm_lookup(*rest, key)
                }
            },
            _ => vm_lookup(*rest, key),
        },
        _ => ValModel::Opt(Option::None),
    }
}

/// Whether a request's image is mutating.
pub open spec fn vm_is_mutating(req: ValModel) -> ValModel {
    match req {
        ValModel::Pair(tag, _payload) => match *tag {
            ValModel::B(b) => ValModel::B(b),
            _ => ValModel::B(false),
        },
        _ => ValModel::B(false),
    }
}

/// What handling a request does: the new state, paired with the response.
/// A put prepends the binding and answers nothing; a get leaves the state
/// and answers the bound value, if any.
pub open spec fn vm_handle(state: ValModel, req: ValModel) -> ValModel {
    match req {
        ValModel::Pair(tag, payload) => {
            if *tag == ValModel::B(true) {
                match *payload {
                    ValModel::Pair(k, v) => ValModel::Pair(
                        Box::new(
                            ValModel::Pair(
                                Box::new(ValModel::Pair(k, v)),
                                Box::new(state),
                            ),
                        ),
                        Box::new(ValModel::Opt(Option::None)),
                    ),
                    _ => ValModel::Pair(Box::new(state), Box::new(ValModel::Opt(Option::None))),
                }
            } else {
                match *payload {
                    ValModel::S(k) => ValModel::Pair(Box::new(state), Box::new(vm_lookup(state, k))),
                    _ => ValModel::Pair(Box::new(state), Box::new(ValModel::Opt(Option::None))),
                }
            }
        },
        _ => ValModel::Pair(Box::new(state), Box::new(ValModel::Opt(Option::None))),
    }
}

/// The second component of a handled request: the response alone.
pub open spec fn vm_second(pair: ValModel) -> ValModel {
    match pair {
        ValModel::Pair(_a, b) => *b,
        _ => ValModel::Unit,
    }
}

/// The first component of a handled request: the new state alone.
pub open spec fn vm_first(pair: ValModel) -> ValModel {
    match pair {
        ValModel::Pair(a, _b) => *a,
        _ => ValModel::Unit,
    }
}

/// Looks a key up in a store state.
pub fn kv_lookup(state: &Value, key: &String) -> (r: Value)
    ensures
        view_of(r) == vm_lookup(view_of(*state), key@),
    decreases *state,
{
    proof {
        reveal_with_fuel(view_of, 6);
    }
    match state {
        Value::Pair(entry, rest) => match &**entry {
            Value::Pair(ek, ev) => match &**ek {
                Value::S(s) => {
                    if crate::location::string_eq(s, key) {
                        Value::Opt(Option::Some(Box::new(ev.dup())))
                    } else {
                        kv_lookup(rest, key)
                    }
                },
                _ => kv_lookup(rest, key),
            },
            _ => kv_lookup(rest, key),
        },
        _ => Value::Opt(Option::None),
    }
}

/// Handles a request against a store state: returns the new state paired
/// with the response.
pub fn handle_request(state: &Value, request: &Value) -> (r: Value)
    ensures
        view_of(r) == vm_handle(view_of(*state), view_of(*request)),
{
    proof {
        reveal_with_fuel(view_of, 6);
    }
    match request {
        Value::Pair(tag, payload) => match &**tag {
            Value::B(true) => match &**payload {
                Value::Pair(k, v) => Value::Pair(
                    Box::new(
                        Value::Pair(
                            Box::new(Value::Pair(Box::new(k.dup()), Box::new(v.dup()))),
                            Box::new(state.dup()),
                        ),
                    ),
                    Box::new(Value::Opt(Option::None)),
                ),
                _ => Value::Pair(Box::new(state.dup()), Box::new(Value::Opt(Option::None))),
            },
            _ => match &**payload {
                Value::S(k) => {
                    let resp = kv_lookup(state, k);
                    Value::Pair(Box::new(state.dup()), Box::new(resp))
                },
                _ => Value::Pair(Box::new(state.dup()), Box::new(Value::Opt(Option::None))),
            },
        },
        _ => Value::Pair(Box::new(state.dup()), Box::new(Value::Opt(Option::None))),
    }
}

/// Whether a character separates tokens of a textual command.
pub open spec fn is_space(c: char) -> bool {
    c == ' ' || c == '\t' || c == '\n' || c == '\r'
}

/// The tokens of a textual command, by accumulation: `cur` is the token
/// being read, `acc` the tokens already read.
pub open spec fn tokens_acc(s: Seq<char>, cur: Seq<char>, acc: Seq<Seq<char>>) -> Seq<Seq<char>>
    decreases s.len(),
{
    if s.len() == 0 {
        if cur.len() == 0 {
            acc
        } else {
            acc.push(cur)
        }
    } else if is_space(s[0]) {
        if cur.len() == 0 {
            tokens_acc(s.drop_first(), Seq::empty(), acc)
        } else {
            tokens_acc(s.drop_first(), Seq::empty(), acc.push(cur))
        }
    } else {
        tokens_acc(s.drop_first(), cur.push(s[0]), acc)
    }
}

/// The whitespace-separated tokens of a textual command.
pub open spec fn spec_tokens(s: Seq<char>) -> Seq<Seq<char>> {
    tokens_acc(s, Seq::empty(), Seq::empty())
}

/// Splits a textual command into its whitespace-separated tokens.
#[verifier::loop_isolation(false)]
pub fn tokenize(s: &str) -> (r: Vec<String>)
    ensures
        r@.map_values(|t: String| t@) == spec_tokens(s@),
{
    let n: usize = s.unicode_len();
    let mut tokens: Vec<String> = Vec::new();
    let mut cur: Vec<char> = Vec::new();
    let mut i: usize = 0;
    proof {
        assert(s@.skip(0) =~= s@);
        assert(tokens@.map_values(|t: String| t@) =~= Seq::<Seq<char>>::empty());
        assert(cur@ =~= Seq::<char>::empty());
    }
    while i < n
        invariant
            i <= n,
            n == s@.len(),
            tokens_acc(s@.skip(i as int), cur@, tokens@.map_values(|t: String| t@))
                == spec_tokens(s@),
        decreases n - i,
    {
        let c: char = s.get_char(i);
        proof {
            assert(s@.skip(i as int)[0] == s@[i as int]);
            assert(s@.skip(i as int).drop_first() =~= s@.skip(i + 1));
        }
        if c == ' ' || c == '\t' || c == '\n' || c == '\r' {
            assert(is_space(s@[i as int]));
            if cur.len() > 0 {
                let ghost before = tokens@.map_values(|t: String| t@);
                let ghost curview = cur@;
                let t = crate::codec::string_from_chars(&cur);
                tokens.push(t);
                cur = Vec::new();
                assert(tokens@.map_values(|t2: String| t2@) =~= before.push(curview));
                assert(cur@ =~= Seq::<char>::empty());
            } else {
                assert(cur@ =~= Seq::<char>::empty());
            }
        } else {
            assert(!is_space(s@[i as int]));
            cur.push(c);
        }
        i = i + 1;
    }
    assert(s@.skip(n as int) =~= Seq::<char>::empty());
    if cur.len() > 0 {
        let ghost before = tokens@.map_values(|t: String| t@);
        let t = crate::codec::string_from_chars(&cur);
        tokens.push(t);
        assert(tokens@.map_values(|t2: String| t2@) =~= before.push(t@));
    }
    tokens
}

/// Parses a textual command: `GET key` reads a key, `PUT key value` binds
/// one; anything else is not a request.
pub fn parse_request(s: &str) -> (r: Option<Request>)
    ensures
        match r {
            Some(req) => match req {
                Request::Get(k) => spec_tokens(s@).len() == 2 && spec_tokens(s@)[0] == "GET"@
                    && k@ == spec_tokens(s@)[1],
                Request::Put(k, v) => spec_tokens(s@).len() == 3 && spec_tokens(s@)[0] == "PUT"@
                    && k@ == spec_tokens(s@)[1] && v@ == spec_tokens(s@)[2],
            },
            None => !(spec_tokens(s@).len() == 2 && spec_tokens(s@)[0] == "GET"@) && !(spec_tokens(
                s@,
            ).len() == 3 && spec_tokens(s@)[0] == "PUT"@),
        },
{
    let tokens = tokenize(s);
    proof {
        assert(forall|j: int|
            0 <= j < tokens@.len() ==> spec_tokens(s@)[j] == (#[trigger] tokens@[j])@);
    }
    let get_word: String = String::from_str("GET");
    let put_word: String = String::from_str("PUT");
    if tokens.len() == 2 {
        if crate::location::string_eq(&tokens[0], &get_word) {
            Some(Request::Get(tokens[1].clone()))
        } else {
            None
        }
    } else if tokens.len() == 3 {
        if crate::location::string_eq(&tokens[0], &put_word) {
            Some(Request::Put(tokens[1].clone(), tokens[2].clone()))
        } else {
            None
        }
    } else {
        None
    }
}

/// The local computations of the key-value store choreography.
pub enum KvsComp {
    /// Whether the request (first argument) is mutating.
    IsMutating,
    /// Handle the request: arguments are the state and the request; the
    /// result is the new state paired with the response.
    HandleReq,
    /// The second component of a pair (first argument): the response.
    SecondOf,
    /// The unit value, for the arm of a branch that does nothing.
    UnitComp,
}

impl LocalComputation for KvsComp {
    open spec fn spec_apply(&self, args: Seq<ValModel>) -> ValModel {
        match self {
            KvsComp::IsMutating => if args.len() == 1 {
                vm_is_mutating(args[0])
            } else {
                ValModel::Unit
            },
            KvsComp::HandleReq => if args.len() == 2 {
                vm_handle(args[0], args[1])
            } else {
                ValModel::Unit
            },
            KvsComp::SecondOf => if args.len() == 1 {
                vm_second(args[0])
            } else {
                ValModel::Unit
            },
            KvsComp::UnitComp => ValModel::Unit,
        }
    }

    fn apply(&self, args: &Vec<Value>) -> (r: Value) {
        proof {
            reveal_with_fuel(view_of, 6);
        }
        let ghost models = args@.map_values(|v: Value| view_of(v));
        match self {
            KvsComp::IsMutating => {
                if args.len() == 1 {
                    assert(models[0] == view_of(args@[0]));
                    match &args[0] {
                        Value::Pair(tag, _payload) => match &**tag {
                            Value::B(b) => Value::B(*b),
                            _ => Value::B(false),
                        },
                        _ => Value::B(false),
                    }
                } else {
                    Value::Unit
                }
            },
            KvsComp::HandleReq => {
                if args.len() == 2 {
                    assert(models[0] == view_of(args@[0]));
                    assert(models[1] == view_of(args@[1]));
                    handle_request(&args[0], &args[1])
                } else {
                    Value::Unit
                }
            },
            KvsComp::SecondOf => {
                if args.len() == 1 {
                    assert(models[0] == view_of(args@[0]));
                    match &args[0] {
                        Value::Pair(_a, b) => b.dup(),
                        _ => Value::Unit,
                    }
                } else {
                    Value::Unit
                }
            },
            KvsComp::UnitComp => Value::Unit,
        }
    }
}

/// Variable layout of the primary/backup choreography.
pub struct PrimaryBackupKvsChoreography;

impl PrimaryBackupKvsChoreography {
    /// The variable holding the client's request input.
    pub const VAR_REQUEST: usize = 0;

    /// The variable holding the primary's state input.
    pub const VAR_PRIMARY_STATE: usize = 1;

    /// The variable holding the backup's state input.
    pub const VAR_BACKUP_STATE: usize = 2;

    /// The variable holding the primary's handled pair: new state and
    /// response.
    pub const VAR_PRIMARY_PAIR: usize = 10;

    /// The variable holding the enclave's result: at the backup, the
    /// backup's handled pair when the replication sub-protocol ran, the unit
    /// value when it was skipped.
    pub const VAR_BACKUP_PAIR: usize = 15;

    /// The primary/backup choreography: the client sends its request to the
    /// primary; primary and backup replicate mutating requests inside an
    /// enclave without the client; the primary handles the request and
    /// answers the client.
    ///
    /// The contract pins the program's meaning on every input: the run
    /// succeeds; the result, owned by the client alone, is the primary's
    /// response; the primary's pair variable holds its handled request; and
    /// the enclave's result, owned by the backup alone, is the backup's
    /// handled request when the request is mutating and the unit value when
    /// the replication arm was skipped.
    pub fn choreography() -> (r: Choreography<KvsComp>)
        ensures
            forall|vals: Seq<ValModel>|
                vals.len() == 3 ==> {
                    let outcome = #[trigger] crate::sem::choreo_sem(r, vals);
                    let req = vals[0];
                    let s1 = vals[1];
                    let s2 = vals[2];
                    &&& outcome is Ok
                    &&& outcome.unwrap().1 == (crate::sem::EntryModel {
                        owners: seq!["Client"@],
                        val: vm_second(vm_handle(s1, req)),
                    })
                    &&& outcome.unwrap().0[Self::VAR_PRIMARY_PAIR as int] == Option::Some(
                        crate::sem::EntryModel {
                            owners: seq!["Primary"@],
                            val: vm_handle(s1, req),
                        },
                    )
                    &&& outcome.unwrap().0[Self::VAR_BACKUP_PAIR as int] == Option::Some(
                        crate::sem::EntryModel {
                            owners: seq!["Backup"@],
                            val: if crate::value::spec_guard(vm_is_mutating(req)) {
                                vm_handle(s2, req)
                            } else {
                                ValModel::Unit
                            },
                        },
                    )
                },
    {
        let client: String = <Client as ChoreographyLocation>::name().to_owned();
        let primary: String = <Primary as ChoreographyLocation>::name().to_owned();
        let backup: String = <Backup as ChoreographyLocation>::name().to_owned();
        let mut parties: Vec<String> = Vec::new();
        parties.push(client.clone());
        parties.push(primary.clone());
        parties.push(backup.clone());
        let mut inputs: Vec<InputDecl> = Vec::new();
        let mut o0: Vec<String> = Vec::new();
        o0.push(client.clone());
        let d0 = InputDecl { var: 0, owners: o0 };
        let ghost gd0 = d0;
        inputs.push(d0);
        let mut o1: Vec<String> = Vec::new();
        o1.push(primary.clone());
        let d1 = InputDecl { var: 1, owners: o1 };
        let ghost gd1 = d1;
        inputs.push(d1);
        let mut o2: Vec<String> = Vec::new();
        o2.push(backup.clone());
        let d2 = InputDecl { var: 2, owners: o2 };
        let ghost gd2 = d2;
        inputs.push(d2);

        // Replication arm: forward the request, handle it at the backup,
        // acknowledge to the primary, return the backup's handled pair.
        let mut a_bh: Vec<usize> = Vec::new();
        a_bh.push(2);
        a_bh.push(6);
        let ghost ga_bh = a_bh;
        let mut a_bs: Vec<usize> = Vec::new();
        a_bs.push(7);
        let ghost ga_bs = a_bs;
        let t1 = ChoreoOp::Comm { bind: 6, from: primary.clone(), to: backup.clone(), arg: 3 };
        let ghost gt1 = t1;
        let t2 = ChoreoOp::Locally { bind: 7, at: backup.clone(), comp: KvsComp::HandleReq, args: a_bh };
        let ghost gt2 = t2;
        let t3 = ChoreoOp::Locally { bind: 8, at: backup.clone(), comp: KvsComp::SecondOf, args: a_bs };
        let ghost gt3 = t3;
        let t4 = ChoreoOp::Comm { bind: 9, from: backup.clone(), to: primary.clone(), arg: 8 };
        let ghost gt4 = t4;
        let tp4 = Program::Then(t4, Box::new(Program::Ret(7)));
        let ghost gtp4 = tp4;
        let tp3 = Program::Then(t3, Box::new(tp4));
        let ghost gtp3 = tp3;
        let tp2 = Program::Then(t2, Box::new(tp3));
        let ghost gtp2 = tp2;
        let then_prog = Program::Then(t1, Box::new(tp2));
        let ghost g_then = then_prog;

        // Skipping arm: the unit value at the backup.
        let eo = ChoreoOp::Locally {
            bind: 13,
            at: backup.clone(),
            comp: KvsComp::UnitComp,
            args: Vec::new(),
        };
        let ghost geo = eo;
        let else_prog = Program::Then(eo, Box::new(Program::Ret(13)));
        let ghost g_else = else_prog;

        // Enclave body: decide by a broadcast whether to replicate.
        let mut a_ismut: Vec<usize> = Vec::new();
        a_ismut.push(3);
        let ghost ga_ismut = a_ismut;
        let b1 = ChoreoOp::Locally {
            bind: 4,
            at: primary.clone(),
            comp: KvsComp::IsMutating,
            args: a_ismut,
        };
        let ghost gb1 = b1;
        let b2 = ChoreoOp::Broadcast { bind: 5, from: primary.clone(), arg: 4 };
        let ghost gb2 = b2;
        let b3 = ChoreoOp::Branch {
            bind: 14,
            cond: 5,
            then_prog: Box::new(then_prog),
            else_prog: Box::new(else_prog),
        };
        let ghost gb3 = b3;
        let bp3 = Program::Then(b3, Box::new(Program::Ret(14)));
        let ghost gbp3 = bp3;
        let bp2 = Program::Then(b2, Box::new(bp3));
        let ghost gbp2 = bp2;
        let enclave_body = Program::Then(b1, Box::new(bp2));
        let ghost g_ebody = enclave_body;

        let mut eparties: Vec<String> = Vec::new();
        eparties.push(primary.clone());
        eparties.push(backup.clone());
        let ghost g_eparties = eparties;

        // Top level: request in, enclave, handle at the primary, answer.
        let mut a_ph: Vec<usize> = Vec::new();
        a_ph.push(1);
        a_ph.push(3);
        let ghost ga_ph = a_ph;
        let mut a_ps: Vec<usize> = Vec::new();
        a_ps.push(10);
        let ghost ga_ps = a_ps;
        let o_comm_in = ChoreoOp::Comm { bind: 3, from: client.clone(), to: primary.clone(), arg: 0 };
        let ghost go1 = o_comm_in;
        let o_enclave = ChoreoOp::Enclave { bind: 15, parties: eparties, body: Box::new(enclave_body) };
        let ghost go2 = o_enclave;
        let o_handle = ChoreoOp::Locally {
            bind: 10,
            at: primary.clone(),
            comp: KvsComp::HandleReq,
            args: a_ph,
        };
        let ghost go3 = o_handle;
        let o_second = ChoreoOp::Locally {
            bind: 11,
            at: primary.clone(),
            comp: KvsComp::SecondOf,
            args: a_ps,
        };
        let ghost go4 = o_second;
        let o_comm_out = ChoreoOp::Comm { bind: 12, from: primary.clone(), to: client.clone(), arg: 11 };
        let ghost go5 = o_comm_out;
        let p5 = Program::Then(o_comm_out, Box::new(Program::Ret(12)));
        let ghost gp5 = p5;
        let p4 = Program::Then(o_second, Box::new(p5));
        let ghost gp4 = p4;
        let p3 = Program::Then(o_handle, Box::new(p4));
        let ghost gp3 = p3;
        let p2 = Program::Then(o_enclave, Box::new(p3));
        let ghost gp2 = p2;
        let body = Program::Then(o_comm_in, Box::new(p2));
        let result = Choreography { parties, n_vars: 16, inputs, body };
        proof {
            lemma_kvs_names();
            let cn = "Client"@;
            let pn = "Primary"@;
            let bn = "Backup"@;
            let all = names_of(result.parties@);
            assert(all =~= seq![cn, pn, bn]) by {
                assert(all[0] == result.parties@[0]@);
                assert(all[1] == result.parties@[1]@);
                assert(all[2] == result.parties@[2]@);
            }
            assert(all.contains(cn)) by {
                assert(all[0] == cn);
            }
            assert(all.contains(pn)) by {
                assert(all[1] == pn);
            }
            assert(all.contains(bn)) by {
                assert(all[2] == bn);
            }
            assert(crate::sem::names_distinct(all)) by {
                assert(all[0] == cn && all[1] == pn && all[2] == bn);
            }
            let sub = names_of(g_eparties@);
            assert(sub =~= seq![pn, bn]) by {
                assert(sub[0] == g_eparties@[0]@);
                assert(sub[1] == g_eparties@[1]@);
            }
            assert(sub.contains(pn)) by {
                assert(sub[0] == pn);
            }
            assert(sub.contains(bn)) by {
                assert(sub[1] == bn);
            }
            assert(crate::sem::names_subset(sub, all)) by {
                assert(sub[0] == pn && sub[1] == bn);
            }
            assert(crate::sem::names_distinct(sub)) by {
                assert(sub[0] == pn && sub[1] == bn);
            }
            let own_c = names_of(gd0.owners@);
            let own_p = names_of(gd1.owners@);
            let own_b = names_of(gd2.owners@);
            assert(own_c =~= seq![cn]) by {
                assert(own_c[0] == gd0.owners@[0]@);
            }
            assert(own_p =~= seq![pn]) by {
                assert(own_p[0] == gd1.owners@[0]@);
            }
            assert(own_b =~= seq![bn]) by {
                assert(own_b[0] == gd2.owners@[0]@);
            }
            assert(crate::sem::names_subset(own_c, all)) by {
                assert(own_c[0] == cn);
            }
            assert(crate::sem::names_subset(own_p, all)) by {
                assert(own_p[0] == pn);
            }
            assert(crate::sem::names_subset(own_b, all)) by {
                assert(own_b[0] == bn);
            }
            let decls = result.inputs@;
            assert(decls =~= seq![gd0, gd1, gd2]);
            assert forall|vals: Seq<ValModel>|
                vals.len() == 3 implies {
                    let outcome = #[trigger] crate::sem::choreo_sem(result, vals);
                    let req = vals[0];
                    let s1 = vals[1];
                    let s2 = vals[2];
                    &&& outcome is Ok
                    &&& outcome.unwrap().1 == (crate::sem::EntryModel {
                        owners: seq![cn],
                        val: vm_second(vm_handle(s1, req)),
                    })
                    &&& outcome.unwrap().0[Self::VAR_PRIMARY_PAIR as int] == Option::Some(
                        crate::sem::EntryModel { owners: seq![pn], val: vm_handle(s1, req) },
                    )
                    &&& outcome.unwrap().0[Self::VAR_BACKUP_PAIR as int] == Option::Some(
                        crate::sem::EntryModel {
                            owners: seq![bn],
                            val: if crate::value::spec_guard(vm_is_mutating(req)) {
                                vm_handle(s2, req)
                            } else {
                                ValModel::Unit
                            },
                        },
                    )
                } by {
                let req = vals[0];
                let s1 = vals[1];
                let s2 = vals[2];
                let blank = Seq::new(16nat, |i: int| Option::None::<crate::sem::EntryModel>);
                // Bind the three inputs.
                let e0 = blank.update(0, Option::Some(crate::sem::EntryModel { owners: own_c, val: req }));
                let e1 = e0.update(1, Option::Some(crate::sem::EntryModel { owners: own_p, val: s1 }));
                let e2 = e1.update(2, Option::Some(crate::sem::EntryModel { owners: own_b, val: s2 }));
                crate::sem::lemma_init_step(all, decls, vals, blank);
                assert(decls.drop_first() =~= seq![gd1, gd2]);
                assert(vals.drop_first() =~= seq![s1, s2]) by {
                    assert(vals.drop_first().len() == 2);
                    assert(vals.drop_first()[0] == s1);
                    assert(vals.drop_first()[1] == s2);
                }
                crate::sem::lemma_init_step(all, seq![gd1, gd2], seq![s1, s2], e0);
                assert(seq![gd1, gd2].drop_first() =~= seq![gd2]);
                assert(seq![s1, s2].drop_first() =~= seq![s2]);
                crate::sem::lemma_init_step(all, seq![gd2], seq![s2], e1);
                assert(seq![gd2].drop_first() =~= Seq::<InputDecl>::empty());
                assert(seq![s2].drop_first() =~= Seq::<ValModel>::empty());
                assert(crate::sem::init_env(all, decls, vals, blank) == Result::<
                    crate::sem::CEnv,
                    crate::error::ChorError,
                >::Ok(e2));
                // The request travels to the primary.
                crate::sem::lemma_singleton_contains(cn, cn);
                crate::sem::lemma_singleton_contains(pn, pn);
                crate::sem::lemma_singleton_contains(bn, bn);
                assert(e2[0].unwrap().owners.contains(cn)) by {
                    assert(own_c[0] == cn);
                }
                crate::sem::lemma_sem_comm::<KvsComp>(3, go1->Comm_from, go1->Comm_to, 0, all, e2);
                let e3 = e2.update(3, Option::Some(crate::sem::EntryModel { owners: seq![pn], val: req }));
                crate::sem::lemma_sem_then(go1, gp2, all, e2, e3);
                // Enclave body: the guard is computed and broadcast.
                assert(arg_vals(e3, ga_ismut@) =~= seq![req]) by {
                    assert(ga_ismut@[0] == 3);
                }
                assert forall|i: int|
                    0 <= i < ga_ismut@.len() implies (#[trigger] ga_ismut@[i]) < e3.len()
                    && e3[ga_ismut@[i] as int] is Some && e3[ga_ismut@[i] as int].unwrap(
                ).owners.contains(pn) by {
                    assert(ga_ismut@[i] == 3);
                }
                crate::sem::lemma_sem_locally(4, gb1->Locally_at, KvsComp::IsMutating, gb1->Locally_args, sub, e3);
                let ismut = vm_is_mutating(req);
                let e4 = e3.update(4, Option::Some(crate::sem::EntryModel { owners: seq![pn], val: ismut }));
                crate::sem::lemma_sem_then(gb1, gbp2, sub, e3, e4);
                crate::sem::lemma_sem_broadcast::<KvsComp>(5, gb2->Broadcast_from, 4, sub, e4);
                let e5 = e4.update(5, Option::Some(crate::sem::EntryModel { owners: sub, val: ismut }));
                crate::sem::lemma_sem_then(gb2, gbp3, sub, e4, e5);
                // Replication arm.
                crate::sem::lemma_sem_comm::<KvsComp>(6, gt1->Comm_from, gt1->Comm_to, 3, sub, e5);
                let f1 = e5.update(6, Option::Some(crate::sem::EntryModel { owners: seq![bn], val: req }));
                crate::sem::lemma_sem_then(gt1, gtp2, sub, e5, f1);
                assert(arg_vals(f1, ga_bh@) =~= seq![s2, req]) by {
                    assert(ga_bh@[0] == 2 && ga_bh@[1] == 6);
                }
                assert forall|i: int|
                    0 <= i < ga_bh@.len() implies (#[trigger] ga_bh@[i]) < f1.len()
                    && f1[ga_bh@[i] as int] is Some && f1[ga_bh@[i] as int].unwrap(
                ).owners.contains(bn) by {
                    if i == 0 {
                        assert(ga_bh@[i] == 2);
                        assert(f1[2].unwrap().owners[0] == bn);
                    } else {
                        assert(ga_bh@[i] == 6);
                    }
                }
                crate::sem::lemma_sem_locally(7, gt2->Locally_at, KvsComp::HandleReq, gt2->Locally_args, sub, f1);
                let f2 = f1.update(7, Option::Some(crate::sem::EntryModel { owners: seq![bn], val: vm_handle(s2, req) }));
                crate::sem::lemma_sem_then(gt2, gtp3, sub, f1, f2);
                assert(arg_vals(f2, ga_bs@) =~= seq![vm_handle(s2, req)]) by {
                    assert(ga_bs@[0] == 7);
                }
                assert forall|i: int|
                    0 <= i < ga_bs@.len() implies (#[trigger] ga_bs@[i]) < f2.len()
                    && f2[ga_bs@[i] as int] is Some && f2[ga_bs@[i] as int].unwrap(
                ).owners.contains(bn) by {
                    assert(ga_bs@[i] == 7);
                }
                crate::sem::lemma_sem_locally(8, gt3->Locally_at, KvsComp::SecondOf, gt3->Locally_args, sub, f2);
                let f3 = f2.update(8, Option::Some(crate::sem::EntryModel { owners: seq![bn], val: vm_second(vm_handle(s2, req)) }));
                crate::sem::lemma_sem_then(gt3, gtp4, sub, f2, f3);
                crate::sem::lemma_sem_comm::<KvsComp>(9, gt4->Comm_from, gt4->Comm_to, 8, sub, f3);
                let f4 = f3.update(9, Option::Some(crate::sem::EntryModel { owners: seq![pn], val: vm_second(vm_handle(s2, req)) }));
                crate::sem::lemma_sem_then(gt4, Program::Ret(7), sub, f3, f4);
                crate::sem::lemma_sem_ret::<KvsComp>(7, sub, f4);
                let then_ent = crate::sem::EntryModel { owners: seq![bn], val: vm_handle(s2, req) };
                assert(crate::sem::sem_prog(g_then, sub, e5) == Result::<
                    (crate::sem::CEnv, crate::sem::EntryModel),
                    crate::error::ChorError,
                >::Ok((f4, then_ent)));
                // Skipping arm.
                assert(arg_vals(e5, geo->Locally_args@) =~= Seq::<ValModel>::empty());
                crate::sem::lemma_sem_locally(13, geo->Locally_at, KvsComp::UnitComp, geo->Locally_args, sub, e5);
                let h1 = e5.update(13, Option::Some(crate::sem::EntryModel { owners: seq![bn], val: ValModel::Unit }));
                crate::sem::lemma_sem_then(geo, Program::Ret(13), sub, e5, h1);
                crate::sem::lemma_sem_ret::<KvsComp>(13, sub, h1);
                let else_ent = crate::sem::EntryModel { owners: seq![bn], val: ValModel::Unit };
                assert(crate::sem::sem_prog(g_else, sub, e5) == Result::<
                    (crate::sem::CEnv, crate::sem::EntryModel),
                    crate::error::ChorError,
                >::Ok((h1, else_ent)));
                // The branch binds the taken arm's result.
                let g = crate::value::spec_guard(ismut);
                let arm_env = if g { f4 } else { h1 };
                let arm_ent = if g { then_ent } else { else_ent };
                crate::sem::lemma_sem_branch(14, 5, g_then, g_else, sub, e5, arm_env, arm_ent);
                let e6 = e5.update(14, Option::Some(arm_ent));
                crate::sem::lemma_sem_then(gb3, Program::Ret(14), sub, e5, e6);
                crate::sem::lemma_sem_ret::<KvsComp>(14, sub, e6);
                assert(crate::sem::sem_prog(g_ebody, sub, e3) == Result::<
                    (crate::sem::CEnv, crate::sem::EntryModel),
                    crate::error::ChorError,
                >::Ok((e6, arm_ent)));
                // The enclave binds the arm's result; the client skips it.
                assert(crate::sem::names_subset(arm_ent.owners, sub)) by {
                    assert(arm_ent.owners[0] == bn);
                }
                crate::sem::lemma_sem_enclave(15, go2->Enclave_parties, g_ebody, all, e3, e6, arm_ent);
                let e7 = e3.update(15, Option::Some(arm_ent));
                crate::sem::lemma_sem_then(go2, gp3, all, e3, e7);
                // The primary handles and answers.
                assert(arg_vals(e7, ga_ph@) =~= seq![s1, req]) by {
                    assert(ga_ph@[0] == 1 && ga_ph@[1] == 3);
                }
                assert forall|i: int|
                    0 <= i < ga_ph@.len() implies (#[trigger] ga_ph@[i]) < e7.len()
                    && e7[ga_ph@[i] as int] is Some && e7[ga_ph@[i] as int].unwrap(
                ).owners.contains(pn) by {
                    if i == 0 {
                        assert(ga_ph@[i] == 1);
                        assert(e7[1].unwrap().owners[0] == pn);
                    } else {
                        assert(ga_ph@[i] == 3);
                    }
                }
                crate::sem::lemma_sem_locally(10, go3->Locally_at, KvsComp::HandleReq, go3->Locally_args, all, e7);
                let e8 = e7.update(10, Option::Some(crate::sem::EntryModel { owners: seq![pn], val: vm_handle(s1, req) }));
                crate::sem::lemma_sem_then(go3, gp4, all, e7, e8);
                assert(arg_vals(e8, ga_ps@) =~= seq![vm_handle(s1, req)]) by {
                    assert(ga_ps@[0] == 10);
                }
                assert forall|i: int|
                    0 <= i < ga_ps@.len() implies (#[trigger] ga_ps@[i]) < e8.len()
                    && e8[ga_ps@[i] as int] is Some && e8[ga_ps@[i] as int].unwrap(
                ).owners.contains(pn) by {
                    assert(ga_ps@[i] == 10);
                }
                crate::sem::lemma_sem_locally(11, go4->Locally_at, KvsComp::SecondOf, go4->Locally_args, all, e8);
                let e9 = e8.update(11, Option::Some(crate::sem::EntryModel { owners: seq![pn], val: vm_second(vm_handle(s1, req)) }));
                crate::sem::lemma_sem_then(go4, gp5, all, e8, e9);
                crate::sem::lemma_sem_comm::<KvsComp>(12, go5->Comm_from, go5->Comm_to, 11, all, e9);
                let e10 = e9.update(12, Option::Some(crate::sem::EntryModel { owners: seq![cn], val: vm_second(vm_handle(s1, req)) }));
                crate::sem::lemma_sem_then(go5, Program::Ret(12), all, e9, e10);
                crate::sem::lemma_sem_ret::<KvsComp>(12, all, e10);
                assert(crate::sem::choreo_sem(result, vals) == Result::<
                    (crate::sem::CEnv, crate::sem::EntryModel),
                    crate::error::ChorError,
                >::Ok((e10, crate::sem::EntryModel { owners: seq![cn], val: vm_second(vm_handle(s1, req)) })));
                assert(e10[Self::VAR_PRIMARY_PAIR as int] == Option::Some(
                    crate::sem::EntryModel { owners: seq![pn], val: vm_handle(s1, req) },
                ));
                assert(e10[Self::VAR_BACKUP_PAIR as int] == Option::Some(arm_ent));
            }
        }
        result
    }
}

/// The names of the three participants are pairwise different.
proof fn lemma_kvs_names()
    ensures
        "Client"@ != "Primary"@,
        "Client"@ != "Backup"@,
        "Primary"@ != "Backup"@,
{
    reveal_strlit("Client");
    reveal_strlit("Primary");
    reveal_strlit("Backup");
    assert("Client"@.len() == 6);
    assert("Primary"@.len() == 7);
    assert("Backup"@.len() == 6);
    assert("Client"@[0] == 'C');
    assert("Backup"@[0] == 'B');
}

} // verus!
