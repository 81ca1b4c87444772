//! The bookseller protocol, written as a choreography.
//!
//! A buyer asks a seller for the price of a title and decides whether to buy
//! — either alone against its own budget, or together with a second buyer
//! inside an enclave the seller takes no part in.  If the decision is to
//! buy, the seller sends the delivery date; the final decision's outcome is
//! broadcast to every participant.
//!
//! Dates are plain data here: year, month and day.  An inventory is an
//! association list from title to price and delivery date.

use vstd::prelude::*;

use crate::choreo::{Choreography, ChoreoOp, InputDecl, LocalComputation, Program};
use crate::location::ChoreographyLocation;
use crate::sem::{arg_vals, names_of};
use crate::value::{view_of, ValModel, Value};

verus! {

/// The deciding buyer.
#[derive(Clone, Copy)]
pub struct Buyer1;

/// The second buyer, consulted in the collaborative protocol.
#[derive(Clone, Copy)]
pub struct Buyer2;

/// The seller.
#[derive(Clone, Copy)]
pub struct Seller;

impl ChoreographyLocation for Buyer1 {
    open spec fn spec_name() -> Seq<char> {
        "Buyer1"@
    }

    fn new() -> Self {
        Buyer1
    }

    fn name() -> (r: &'static str) {
        "Buyer1"
    }
}

impl ChoreographyLocation for Buyer2 {
    open spec fn spec_name() -> Seq<char> {
        "Buyer2"@
    }

    fn new() -> Self {
        Buyer2
    }

    fn name() -> (r: &'static str) {
        "Buyer2"
    }
}

impl ChoreographyLocation for Seller {
    open spec fn spec_name() -> Seq<char> {
        "Seller"@
    }

    fn new() -> Self {
        Seller
    }

    fn name() -> (r: &'static str) {
        "Seller"
    }
}

/// A calendar date as plain data.
pub open spec fn spec_date(y: i64, m: i64, d: i64) -> ValModel {
    ValModel::Pair(
        Box::new(ValModel::I(y as int)),
        Box::new(
            ValModel::Pair(Box::new(ValModel::I(m as int)), Box::new(ValModel::I(d as int))),
        ),
    )
}

/// Builds a date value from year, month and day.
pub fn date_value(y: i64, m: i64, d: i64) -> (r: Value)
    ensures
        view_of(r) == spec_date(y, m, d),
{
    proof {
        reveal_with_fuel(view_of, 5);
    }
    Value::Pair(
        Box::new(Value::I(y)),
        Box::new(Value::Pair(Box::new(Value::I(m)), Box::new(Value::I(d)))),
    )
}

/// The price of a title in an inventory: the inventory is an association
/// list of entries `(title, (price, date))`, ending in the unit value.
pub open spec fn vm_price_of(inv: ValModel, title: Seq<char>) -> ValModel
    decreases inv,
{
    match inv {
        ValModel::Pair(entry, rest) => match *entry {
            ValModel::Pair(t, info) => {
                if *t == ValModel::S(title) {
                    match *info {
                        ValModel::Pair(price, _date) => ValModel::Opt(Option::Some(price)),
                        _ => ValModel::Opt(Option::None),
                    }
                } else {
                    vm_price_of(*rest, title)
                }
            },
            _ => vm_price_of(*rest, title),
        },
        _ => ValModel::Opt(Option::None),
    }
}

/// The delivery date of a title in an inventory.
pub open spec fn vm_date_of(inv: ValModel, title: Seq<char>) -> ValModel
    decreases inv,
{
    match inv {
        ValModel::Pair(entry, rest) => match *entry {
            ValModel::Pair(t, info) => {
                if *t == ValModel::S(title) {
                    match *info {
                        ValModel::Pair(_price, date) => ValModel::Opt(Option::Some(date)),
                        _ => ValModel::Opt(Option::None),
                    }
                } else {
                    vm_date_of(*rest, title)
                }
            },
            _ => vm_date_of(*rest, title),
        },
        _ => ValModel::Opt(Option::None),
    }
}

/// Whether an optional price fits a budget: an absent price never does.
pub open spec fn vm_affordable(price: ValModel, budget: ValModel) -> ValModel {
    match (price, budget) {
        (ValModel::Opt(o), ValModel::I(b)) => match o {
            Option::Some(p) => match *p {
                ValModel::I(pv) => ValModel::B(pv <= b),
                _ => ValModel::B(false),
            },
            Option::None => ValModel::B(false),
        },
        _ => ValModel::B(false),
    }
}

/// Whether an optional value holds something.
pub open spec fn vm_is_some(o: ValModel) -> ValModel {
    match o {
        ValModel::Opt(x) => ValModel::B(x is Some),
        _ => ValModel::B(false),
    }
}

/// The sum of two integers; a sum that leaves the machine range collapses
/// to zero.
pub open spec fn vm_sum(a: ValModel, b: ValModel) -> ValModel {
    match (a, b) {
        (ValModel::I(x), ValModel::I(y)) => {
            if i64::MIN <= x + y <= i64::MAX {
                ValModel::I(x + y)
            } else {
                ValModel::I(0)
            }
        },
        _ => ValModel::I(0),
    }
}

/// The local computations of the bookseller choreographies.
pub enum BooksellerComp {
    /// The price of a title: arguments are the inventory and the title.
    LookupPrice,
    /// The delivery date of a title: arguments are the inventory and the
    /// title.
    LookupDate,
    /// Whether an optional price (first argument) fits a budget (second).
    Affordable,
    /// Whether an optional value (first argument) holds something.
    IsSome,
    /// The sum of two integers.
    Sum2,
    /// The absent optional value.
    NoneComp,
    /// The boolean falsehood.
    FalseComp,
}

impl LocalComputation for BooksellerComp {
    open spec fn spec_apply(&self, args: Seq<ValModel>) -> ValModel {
        match self {
            BooksellerComp::LookupPrice => if args.len() == 2 {
                match args[1] {
                    ValModel::S(t) => vm_price_of(args[0], t),
                    _ => ValModel::Opt(Option::None),
                }
            } else {
                ValModel::Unit
            },
            BooksellerComp::LookupDate => if args.len() == 2 {
                match args[1] {
                    ValModel::S(t) => vm_date_of(args[0], t),
                    _ => ValModel::Opt(Option::None),
                }
            } else {
                ValModel::Unit
            },
            BooksellerComp::Affordable => if args.len() == 2 {
                vm_affordable(args[0], args[1])
            } else {
                ValModel::Unit
            },
            BooksellerComp::IsSome => if args.len() == 1 {
                vm_is_some(args[0])
            } else {
                ValModel::Unit
            },
            BooksellerComp::Sum2 => if args.len() == 2 {
                vm_sum(args[0], args[1])
            } else {
                ValModel::Unit
            },
            BooksellerComp::NoneComp => ValModel::Opt(Option::None),
            BooksellerComp::FalseComp => ValModel::B(false),
        }
    }

    fn apply(&self, args: &Vec<Value>) -> (r: Value) {
        proof {
            reveal_with_fuel(view_of, 6);
        }
        let ghost models = args@.map_values(|v: Value| view_of(v));
        match self {
            BooksellerComp::LookupPrice => {
                if args.len() == 2 {
                    assert(models[0] == view_of(args@[0]));
                    assert(models[1] == view_of(args@[1]));
                    match &args[1] {
                        Value::S(t) => lookup_price(&args[0], t),
                        _ => Value::Opt(Option::None),
                    }
                } else {
                    Value::Unit
                }
            },
            BooksellerComp::LookupDate => {
                if args.len() == 2 {
                    assert(models[0] == view_of(args@[0]));
                    assert(models[1] == view_of(args@[1]));
                    match &args[1] {
                        Value::S(t) => lookup_date(&args[0], t),
                        _ => Value::Opt(Option::None),
                    }
                } else {
                    Value::Unit
                }
            },
            BooksellerComp::Affordable => {
                if args.len() == 2 {
                    assert(models[0] == view_of(args@[0]));
                    assert(models[1] == view_of(args@[1]));
                    match (&args[0], &args[1]) {
                        (Value::Opt(o), Value::I(b)) => match o {
                            Option::Some(p) => match &**p {
                                Value::I(pv) => Value::B(*pv <= *b),
                                _ => Value::B(false),
                            },
                            Option::None => Value::B(false),
                        },
                        _ => Value::B(false),
                    }
                } else {
                    Value::Unit
                }
            },
            BooksellerComp::IsSome => {
                if args.len() == 1 {
                    assert(models[0] == view_of(args@[0]));
                    match &args[0] {
                        Value::Opt(x) => Value::B(x.is_some()),
                        _ => Value::B(false),
                    }
                } else {
                    Value::Unit
                }
            },
            BooksellerComp::Sum2 => {
                if args.len() == 2 {
                    assert(models[0] == view_of(args@[0]));
                    assert(models[1] == view_of(args@[1]));
                    match (&args[0], &args[1]) {
                        (Value::I(x), Value::I(y)) => {
                            let s: i128 = *x as i128 + *y as i128;
                            if i64::MIN as i128 <= s && s <= i64::MAX as i128 {
                                Value::I(s as i64)
                            } else {
                                Value::I(0)
                            }
                        },
                        _ => Value::I(0),
                    }
                } else {
                    Value::Unit
                }
            },
            BooksellerComp::NoneComp => Value::Opt(Option::None),
            BooksellerComp::FalseComp => Value::B(false),
        }
    }
}

/// Looks the price of a title up in an inventory value.
pub fn lookup_price(inv: &Value, title: &String) -> (r: Value)
    ensures
        view_of(r) == vm_price_of(view_of(*inv), title@),
    decreases *inv,
{
    proof {
        reveal_with_fuel(view_of, 6);
    }
    match inv {
        Value::Pair(entry, rest) => match &**entry {
            Value::Pair(t, info) => match &**t {
                Value::S(s) => {
                    if crate::location::string_eq(s, title) {
                        match &**info {
                            Value::Pair(price, _date) => Value::Opt(
                                Option::Some(Box::new(price.dup())),
                            ),
                            _ => Value::Opt(Option::None),
                        }
                    } else {
                        lookup_price(rest, title)
                    }
                },
                _ => lookup_price(rest, title),
            },
            _ => lookup_price(rest, title),
        },
        _ => Value::Opt(Option::None),
    }
}

/// Looks the delivery date of a title up in an inventory value.
pub fn lookup_date(inv: &Value, title: &String) -> (r: Value)
    ensures
        view_of(r) == vm_date_of(view_of(*inv), title@),
    decreases *inv,
{
    proof {
        reveal_with_fuel(view_of, 6);
    }
    match inv {
        Value::Pair(entry, rest) => match &**entry {
            Value::Pair(t, info) => match &**t {
                Value::S(s) => {
                    if crate::location::string_eq(s, title) {
                        match &**info {
                            Value::Pair(_price, date) => Value::Opt(
                                Option::Some(Box::new(date.dup())),
                            ),
                            _ => Value::Opt(Option::None),
                        }
                    } else {
                        lookup_date(rest, title)
                    }
                },
                _ => lookup_date(rest, title),
            },
            _ => lookup_date(rest, title),
        },
        _ => Value::Opt(Option::None),
    }
}

/// The price of a title value in an inventory: a non-string title has no
/// price.
pub open spec fn vm_price_query(inv: ValModel, title: ValModel) -> ValModel {
    match title {
        ValModel::S(t) => vm_price_of(inv, t),
        _ => ValModel::Opt(Option::None),
    }
}

/// The delivery date of a title value in an inventory.
pub open spec fn vm_date_query(inv: ValModel, title: ValModel) -> ValModel {
    match title {
        ValModel::S(t) => vm_date_of(inv, t),
        _ => ValModel::Opt(Option::None),
    }
}

/// The names of the three participants are pairwise different.
proof fn lemma_bookseller_names()
    ensures
        "Buyer1"@ != "Buyer2"@,
        "Buyer1"@ != "Seller"@,
        "Buyer2"@ != "Seller"@,
{
    reveal_strlit("Buyer1");
    reveal_strlit("Buyer2");
    reveal_strlit("Seller");
    assert("Buyer1"@.len() == 6);
    assert("Buyer2"@.len() == 6);
    assert("Seller"@.len() == 6);
    assert("Buyer1"@[5] == '1');
    assert("Buyer2"@[5] == '2');
    assert("Seller"@[0] == 'S');
    assert("Buyer1"@[0] == 'B');
}

/// The bookseller with a single deciding buyer: the buyer alone compares
/// the price against its budget, inside a one-party enclave; when the
/// decision is to buy, the seller reveals the delivery date, and the
/// outcome is broadcast to every participant.
///
/// Inputs, in order: the inventory at the seller, the title at the deciding
/// buyer, that buyer's budget.  The contract pins the program's meaning on
/// every input: the run succeeds and its result, owned by all three
/// participants, is the optional delivery date — the title's date when the
/// priced title fits the budget, absent otherwise.
pub fn unilateral_bookseller() -> (r: Choreography<BooksellerComp>)
    ensures
        forall|vals: Seq<ValModel>|
            vals.len() == 3 ==> {
                let outcome = #[trigger] crate::sem::choreo_sem(r, vals);
                let decision = vm_affordable(vm_price_query(vals[0], vals[1]), vals[2]);
                &&& outcome is Ok
                &&& outcome.unwrap().1 == (crate::sem::EntryModel {
                    owners: seq!["Buyer1"@, "Buyer2"@, "Seller"@],
                    val: if crate::value::spec_guard(decision) {
                        vm_date_query(vals[0], vals[1])
                    } else {
                        ValModel::Opt(Option::None)
                    },
                })
            },
{
    let buyer1: String = <Buyer1 as ChoreographyLocation>::name().to_owned();
    let buyer2: String = <Buyer2 as ChoreographyLocation>::name().to_owned();
    let seller: String = <Seller as ChoreographyLocation>::name().to_owned();
    let mut parties: Vec<String> = Vec::new();
    parties.push(buyer1.clone());
    parties.push(buyer2.clone());
    parties.push(seller.clone());
    let mut inputs: Vec<InputDecl> = Vec::new();
    let mut o0: Vec<String> = Vec::new();
    o0.push(seller.clone());
    let d0 = InputDecl { var: 0, owners: o0 };
    let ghost gd0 = d0;
    inputs.push(d0);
    let mut o1: Vec<String> = Vec::new();
    o1.push(buyer1.clone());
    let d1 = InputDecl { var: 1, owners: o1 };
    let ghost gd1 = d1;
    inputs.push(d1);
    let mut o2: Vec<String> = Vec::new();
    o2.push(buyer1.clone());
    let d2 = InputDecl { var: 2, owners: o2 };
    let ghost gd2 = d2;
    inputs.push(d2);

    // The title travels to the seller; the price comes back.
    let mut a_lp: Vec<usize> = Vec::new();
    a_lp.push(0);
    a_lp.push(3);
    let ghost ga_lp = a_lp;
    let q1 = ChoreoOp::Comm { bind: 3, from: buyer1.clone(), to: seller.clone(), arg: 1 };
    let ghost gq1 = q1;
    let q2 = ChoreoOp::Locally {
        bind: 4,
        at: seller.clone(),
        comp: BooksellerComp::LookupPrice,
        args: a_lp,
    };
    let ghost gq2 = q2;
    let q3 = ChoreoOp::Comm { bind: 5, from: seller.clone(), to: buyer1.clone(), arg: 4 };
    let ghost gq3 = q3;

    // The buyer decides alone, inside a one-party enclave.
    let mut a_dec: Vec<usize> = Vec::new();
    a_dec.push(5);
    a_dec.push(2);
    let ghost ga_dec = a_dec;
    let dc = ChoreoOp::Locally {
        bind: 7,
        at: buyer1.clone(),
        comp: BooksellerComp::Affordable,
        args: a_dec,
    };
    let ghost gdc = dc;
    let decide_body = Program::Then(dc, Box::new(Program::Ret(7)));
    let ghost g_decide = decide_body;
    let mut dparties: Vec<String> = Vec::new();
    dparties.push(buyer1.clone());
    let ghost g_dparties = dparties;
    let q4 = ChoreoOp::Enclave { bind: 6, parties: dparties, body: Box::new(decide_body) };
    let ghost gq4 = q4;

    // The seller reveals the date when the decision is to buy.
    let mut a_ld: Vec<usize> = Vec::new();
    a_ld.push(0);
    a_ld.push(3);
    let ghost ga_ld = a_ld;
    let t1 = ChoreoOp::Locally {
        bind: 11,
        at: seller.clone(),
        comp: BooksellerComp::LookupDate,
        args: a_ld,
    };
    let ghost gt1 = t1;
    let t2 = ChoreoOp::Comm { bind: 12, from: seller.clone(), to: buyer1.clone(), arg: 11 };
    let ghost gt2 = t2;
    let tp2 = Program::Then(t2, Box::new(Program::Ret(12)));
    let ghost gtp2 = tp2;
    let then_prog = Program::Then(t1, Box::new(tp2));
    let ghost g_then = then_prog;
    let eo = ChoreoOp::Locally {
        bind: 13,
        at: buyer1.clone(),
        comp: BooksellerComp::NoneComp,
        args: Vec::new(),
    };
    let ghost geo = eo;
    let else_prog = Program::Then(eo, Box::new(Program::Ret(13)));
    let ghost g_else = else_prog;
    let w1 = ChoreoOp::Broadcast { bind: 9, from: buyer1.clone(), arg: 6 };
    let ghost gw1 = w1;
    let w2 = ChoreoOp::Branch {
        bind: 10,
        cond: 9,
        then_prog: Box::new(then_prog),
        else_prog: Box::new(else_prog),
    };
    let ghost gw2 = w2;
    let wp2 = Program::Then(w2, Box::new(Program::Ret(10)));
    let ghost gwp2 = wp2;
    let date_body = Program::Then(w1, Box::new(wp2));
    let ghost g_date = date_body;
    let mut wparties: Vec<String> = Vec::new();
    wparties.push(buyer1.clone());
    wparties.push(seller.clone());
    let ghost g_wparties = wparties;
    let q5 = ChoreoOp::Enclave { bind: 8, parties: wparties, body: Box::new(date_body) };
    let ghost gq5 = q5;
    let q6 = ChoreoOp::Broadcast { bind: 14, from: buyer1.clone(), arg: 8 };
    let ghost gq6 = q6;

    let p6 = Program::Then(q6, Box::new(Program::Ret(14)));
    let ghost gp6 = p6;
    let p5 = Program::Then(q5, Box::new(p6));
    let ghost gp5 = p5;
    let p4 = Program::Then(q4, Box::new(p5));
    let ghost gp4 = p4;
    let p3 = Program::Then(q3, Box::new(p4));
    let ghost gp3 = p3;
    let p2 = Program::Then(q2, Box::new(p3));
    let ghost gp2 = p2;
    let body = Program::Then(q1, Box::new(p2));
    let result = Choreography { parties, n_vars: 15, inputs, body };
    proof {
        lemma_bookseller_names();
        let b1 = "Buyer1"@;
        let b2 = "Buyer2"@;
        let sl = "Seller"@;
        let all = names_of(result.parties@);
        assert(all =~= seq![b1, b2, sl]) by {
            assert(all[0] == result.parties@[0]@);
            assert(all[1] == result.parties@[1]@);
            assert(all[2] == result.parties@[2]@);
        }
        assert(all.contains(b1)) by {
            assert(all[0] == b1);
        }
        assert(all.contains(sl)) by {
            assert(all[2] == sl);
        }
        assert(crate::sem::names_distinct(all)) by {
            assert(all[0] == b1 && all[1] == b2 && all[2] == sl);
        }
        let sub1 = names_of(g_dparties@);
        assert(sub1 =~= seq![b1]) by {
            assert(sub1[0] == g_dparties@[0]@);
        }
        assert(sub1.contains(b1)) by {
            assert(sub1[0] == b1);
        }
        assert(crate::sem::names_subset(sub1, all)) by {
            assert(sub1[0] == b1);
        }
        assert(crate::sem::names_distinct(sub1));
        let sub2 = names_of(g_wparties@);
        assert(sub2 =~= seq![b1, sl]) by {
            assert(sub2[0] == g_wparties@[0]@);
            assert(sub2[1] == g_wparties@[1]@);
        }
        assert(sub2.contains(b1)) by {
            assert(sub2[0] == b1);
        }
        assert(sub2.contains(sl)) by {
            assert(sub2[1] == sl);
        }
        assert(crate::sem::names_subset(sub2, all)) by {
            assert(sub2[0] == b1 && sub2[1] == sl);
        }
        assert(crate::sem::names_distinct(sub2)) by {
            assert(sub2[0] == b1 && sub2[1] == sl);
        }
        let own_s = names_of(gd0.owners@);
        let own_b1a = names_of(gd1.owners@);
        let own_b1b = names_of(gd2.owners@);
        assert(own_s =~= seq![sl]) by {
            assert(own_s[0] == gd0.owners@[0]@);
        }
        assert(own_b1a =~= seq![b1]) by {
            assert(own_b1a[0] == gd1.owners@[0]@);
        }
        assert(own_b1b =~= seq![b1]) by {
            assert(own_b1b[0] == gd2.owners@[0]@);
        }
        assert(crate::sem::names_subset(own_s, all)) by {
            assert(own_s[0] == sl);
        }
        assert(crate::sem::names_subset(own_b1a, all)) by {
            assert(own_b1a[0] == b1);
        }
        assert(crate::sem::names_subset(own_b1b, all)) by {
            assert(own_b1b[0] == b1);
        }
        let decls = result.inputs@;
        assert(decls =~= seq![gd0, gd1, gd2]);
        assert forall|vals: Seq<ValModel>|
            vals.len() == 3 implies {
                let outcome = #[trigger] crate::sem::choreo_sem(result, vals);
                let decision = vm_affordable(vm_price_query(vals[0], vals[1]), vals[2]);
                &&& outcome is Ok
                &&& outcome.unwrap().1 == (crate::sem::EntryModel {
                    owners: seq![b1, b2, sl],
                    val: if crate::value::spec_guard(decision) {
                        vm_date_query(vals[0], vals[1])
                    } else {
                        ValModel::Opt(Option::None)
                    },
                })
            } by {
            let inv = vals[0];
            let title = vals[1];
            let budget = vals[2];
            let blank = Seq::new(15nat, |i: int| Option::None::<crate::sem::EntryModel>);
            let e0 = blank.update(0, Option::Some(crate::sem::EntryModel { owners: own_s, val: inv }));
            let e1 = e0.update(1, Option::Some(crate::sem::EntryModel { owners: own_b1a, val: title }));
            let e2 = e1.update(2, Option::Some(crate::sem::EntryModel { owners: own_b1b, val: budget }));
            crate::sem::lemma_init_step(all, decls, vals, blank);
            assert(decls.drop_first() =~= seq![gd1, gd2]);
            assert(vals.drop_first() =~= seq![title, budget]) by {
                assert(vals.drop_first()[0] == title);
                assert(vals.drop_first()[1] == budget);
            }
            crate::sem::lemma_init_step(all, seq![gd1, gd2], seq![title, budget], e0);
            assert(seq![gd1, gd2].drop_first() =~= seq![gd2]);
            assert(seq![title, budget].drop_first() =~= seq![budget]);
            crate::sem::lemma_init_step(all, seq![gd2], seq![budget], e1);
            assert(seq![gd2].drop_first() =~= Seq::<InputDecl>::empty());
            assert(seq![budget].drop_first() =~= Seq::<ValModel>::empty());
            assert(crate::sem::init_env(all, decls, vals, blank) == Result::<
                crate::sem::CEnv,
                crate::error::ChorError,
            >::Ok(e2));
            crate::sem::lemma_singleton_contains(b1, b1);
            crate::sem::lemma_singleton_contains(sl, sl);
            // The title travels to the seller.
            assert(e2[1].unwrap().owners.contains(b1)) by {
                assert(own_b1a[0] == b1);
            }
            crate::sem::lemma_sem_comm::<BooksellerComp>(3, gq1->Comm_from, gq1->Comm_to, 1, all, e2);
            let e3 = e2.update(3, Option::Some(crate::sem::EntryModel { owners: seq![sl], val: title }));
            crate::sem::lemma_sem_then(gq1, gp2, all, e2, e3);
            // The seller looks the price up.
            let price = vm_price_query(inv, title);
            assert(arg_vals(e3, ga_lp@) =~= seq![inv, title]) by {
                assert(ga_lp@[0] == 0 && ga_lp@[1] == 3);
            }
            assert forall|i: int|
                0 <= i < ga_lp@.len() implies (#[trigger] ga_lp@[i]) < e3.len()
                && e3[ga_lp@[i] as int] is Some && e3[ga_lp@[i] as int].unwrap().owners.contains(
                sl,
            ) by {
                if i == 0 {
                    assert(ga_lp@[i] == 0);
                    assert(e3[0].unwrap().owners[0] == sl);
                } else {
                    assert(ga_lp@[i] == 3);
                }
            }
            crate::sem::lemma_sem_locally(4, gq2->Locally_at, BooksellerComp::LookupPrice, gq2->Locally_args, all, e3);
            let e4 = e3.update(4, Option::Some(crate::sem::EntryModel { owners: seq![sl], val: price }));
            crate::sem::lemma_sem_then(gq2, gp3, all, e3, e4);
            // The price comes back to the buyer.
            crate::sem::lemma_sem_comm::<BooksellerComp>(5, gq3->Comm_from, gq3->Comm_to, 4, all, e4);
            let e5 = e4.update(5, Option::Some(crate::sem::EntryModel { owners: seq![b1], val: price }));
            crate::sem::lemma_sem_then(gq3, gp4, all, e4, e5);
            // The buyer decides alone.
            let decision = vm_affordable(price, budget);
            assert(arg_vals(e5, ga_dec@) =~= seq![price, budget]) by {
                assert(ga_dec@[0] == 5 && ga_dec@[1] == 2);
            }
            assert forall|i: int|
                0 <= i < ga_dec@.len() implies (#[trigger] ga_dec@[i]) < e5.len()
                && e5[ga_dec@[i] as int] is Some && e5[ga_dec@[i] as int].unwrap().owners.contains(
                b1,
            ) by {
                if i == 0 {
                    assert(ga_dec@[i] == 5);
                } else {
                    assert(ga_dec@[i] == 2);
                    assert(e5[2].unwrap().owners[0] == b1);
                }
            }
            crate::sem::lemma_sem_locally(7, gdc->Locally_at, BooksellerComp::Affordable, gdc->Locally_args, sub1, e5);
            let f1 = e5.update(7, Option::Some(crate::sem::EntryModel { owners: seq![b1], val: decision }));
            crate::sem::lemma_sem_then(gdc, Program::Ret(7), sub1, e5, f1);
            crate::sem::lemma_sem_ret::<BooksellerComp>(7, sub1, f1);
            let dec_ent = crate::sem::EntryModel { owners: seq![b1], val: decision };
            assert(crate::sem::sem_prog(g_decide, sub1, e5) == Result::<
                (crate::sem::CEnv, crate::sem::EntryModel),
                crate::error::ChorError,
            >::Ok((f1, dec_ent)));
            assert(crate::sem::names_subset(dec_ent.owners, sub1)) by {
                assert(dec_ent.owners[0] == b1);
            }
            crate::sem::lemma_sem_enclave(6, gq4->Enclave_parties, g_decide, all, e5, f1, dec_ent);
            let e6 = e5.update(6, Option::Some(dec_ent));
            crate::sem::lemma_sem_then(gq4, gp5, all, e5, e6);
            // Inside the date enclave, the decision is broadcast.
            crate::sem::lemma_sem_broadcast::<BooksellerComp>(9, gw1->Broadcast_from, 6, sub2, e6);
            let e9 = e6.update(9, Option::Some(crate::sem::EntryModel { owners: sub2, val: decision }));
            crate::sem::lemma_sem_then(gw1, gwp2, sub2, e6, e9);
            // Buy: the seller reveals the date.
            let dateq = vm_date_query(inv, title);
            assert(arg_vals(e9, ga_ld@) =~= seq![inv, title]) by {
                assert(ga_ld@[0] == 0 && ga_ld@[1] == 3);
            }
            assert forall|i: int|
                0 <= i < ga_ld@.len() implies (#[trigger] ga_ld@[i]) < e9.len()
                && e9[ga_ld@[i] as int] is Some && e9[ga_ld@[i] as int].unwrap().owners.contains(
                sl,
            ) by {
                if i == 0 {
                    assert(ga_ld@[i] == 0);
                    assert(e9[0].unwrap().owners[0] == sl);
                } else {
                    assert(ga_ld@[i] == 3);
                }
            }
            crate::sem::lemma_sem_locally(11, gt1->Locally_at, BooksellerComp::LookupDate, gt1->Locally_args, sub2, e9);
            let f11 = e9.update(11, Option::Some(crate::sem::EntryModel { owners: seq![sl], val: dateq }));
            crate::sem::lemma_sem_then(gt1, gtp2, sub2, e9, f11);
            crate::sem::lemma_sem_comm::<BooksellerComp>(12, gt2->Comm_from, gt2->Comm_to, 11, sub2, f11);
            let f12 = f11.update(12, Option::Some(crate::sem::EntryModel { owners: seq![b1], val: dateq }));
            crate::sem::lemma_sem_then(gt2, Program::Ret(12), sub2, f11, f12);
            crate::sem::lemma_sem_ret::<BooksellerComp>(12, sub2, f12);
            let then_ent = crate::sem::EntryModel { owners: seq![b1], val: dateq };
            assert(crate::sem::sem_prog(g_then, sub2, e9) == Result::<
                (crate::sem::CEnv, crate::sem::EntryModel),
                crate::error::ChorError,
            >::Ok((f12, then_ent)));
            // Pass: the buyer produces the absent date.
            assert(arg_vals(e9, geo->Locally_args@) =~= Seq::<ValModel>::empty());
            crate::sem::lemma_sem_locally(13, geo->Locally_at, BooksellerComp::NoneComp, geo->Locally_args, sub2, e9);
            let h13 = e9.update(13, Option::Some(crate::sem::EntryModel { owners: seq![b1], val: ValModel::Opt(Option::None) }));
            crate::sem::lemma_sem_then(geo, Program::Ret(13), sub2, e9, h13);
            crate::sem::lemma_sem_ret::<BooksellerComp>(13, sub2, h13);
            let else_ent = crate::sem::EntryModel {
                owners: seq![b1],
                val: ValModel::Opt(Option::None),
            };
            assert(crate::sem::sem_prog(g_else, sub2, e9) == Result::<
                (crate::sem::CEnv, crate::sem::EntryModel),
                crate::error::ChorError,
            >::Ok((h13, else_ent)));
            // The branch binds the taken arm's result.
            let g = crate::value::spec_guard(decision);
            let arm_env = if g { f12 } else { h13 };
            let arm_ent = if g { then_ent } else { else_ent };
            crate::sem::lemma_sem_branch(10, 9, g_then, g_else, sub2, e9, arm_env, arm_ent);
            let e10 = e9.update(10, Option::Some(arm_ent));
            crate::sem::lemma_sem_then(gw2, Program::Ret(10), sub2, e9, e10);
            crate::sem::lemma_sem_ret::<BooksellerComp>(10, sub2, e10);
            assert(crate::sem::sem_prog(g_date, sub2, e6) == Result::<
                (crate::sem::CEnv, crate::sem::EntryModel),
                crate::error::ChorError,
            >::Ok((e10, arm_ent)));
            assert(crate::sem::names_subset(arm_ent.owners, sub2)) by {
                assert(arm_ent.owners[0] == b1);
            }
            crate::sem::lemma_sem_enclave(8, gq5->Enclave_parties, g_date, all, e6, e10, arm_ent);
            let e8 = e6.update(8, Option::Some(arm_ent));
            crate::sem::lemma_sem_then(gq5, gp6, all, e6, e8);
            // The outcome is broadcast to everyone.
            assert(e8[8].unwrap().owners.contains(b1)) by {
                assert(arm_ent.owners[0] == b1);
            }
            crate::sem::lemma_sem_broadcast::<BooksellerComp>(14, gq6->Broadcast_from, 8, all, e8);
            let e14 = e8.update(14, Option::Some(crate::sem::EntryModel { owners: all, val: arm_ent.val }));
            crate::sem::lemma_sem_then(gq6, Program::Ret(14), all, e8, e14);
            crate::sem::lemma_sem_ret::<BooksellerComp>(14, all, e14);
            assert(crate::sem::choreo_sem(result, vals) == Result::<
                (crate::sem::CEnv, crate::sem::EntryModel),
                crate::error::ChorError,
            >::Ok((e14, crate::sem::EntryModel { owners: all, val: arm_ent.val })));
        }
    }
    result
}

/// The bookseller with two buyers deciding together, without the seller:
/// inside a two-buyer enclave, the deciding buyer shares whether a price
/// exists, gathers the second buyer's budget, and compares the price
/// against the combined budget.
///
/// Inputs, in order: the inventory at the seller, the title at the deciding
/// buyer, that buyer's budget, the second buyer's budget.  The contract pins
/// the program's meaning on every input: the run succeeds and its result,
/// owned by all three participants, is the optional delivery date — present
/// exactly when a price exists and fits the combined budget.
pub fn collaborative_bookseller() -> (r: Choreography<BooksellerComp>)
    ensures
        forall|vals: Seq<ValModel>|
            vals.len() == 4 ==> {
                let outcome = #[trigger] crate::sem::choreo_sem(r, vals);
                let price = vm_price_query(vals[0], vals[1]);
                let decision = if crate::value::spec_guard(vm_is_some(price)) {
                    vm_affordable(price, vm_sum(vals[2], vals[3]))
                } else {
                    ValModel::B(false)
                };
                &&& outcome is Ok
                &&& outcome.unwrap().1 == (crate::sem::EntryModel {
                    owners: seq!["Buyer1"@, "Buyer2"@, "Seller"@],
                    val: if crate::value::spec_guard(decision) {
                        vm_date_query(vals[0], vals[1])
                    } else {
                        ValModel::Opt(Option::None)
                    },
                })
            },
{
    let buyer1: String = <Buyer1 as ChoreographyLocation>::name().to_owned();
    let buyer2: String = <Buyer2 as ChoreographyLocation>::name().to_owned();
    let seller: String = <Seller as ChoreographyLocation>::name().to_owned();
    let mut parties: Vec<String> = Vec::new();
    parties.push(buyer1.clone());
    parties.push(buyer2.clone());
    parties.push(seller.clone());
    let mut inputs: Vec<InputDecl> = Vec::new();
    let mut o0: Vec<String> = Vec::new();
    o0.push(seller.clone());
    let d0 = InputDecl { var: 0, owners: o0 };
    let ghost gd0 = d0;
    inputs.push(d0);
    let mut o1: Vec<String> = Vec::new();
    o1.push(buyer1.clone());
    let d1 = InputDecl { var: 1, owners: o1 };
    let ghost gd1 = d1;
    inputs.push(d1);
    let mut o2: Vec<String> = Vec::new();
    o2.push(buyer1.clone());
    let d2 = InputDecl { var: 2, owners: o2 };
    let ghost gd2 = d2;
    inputs.push(d2);
    let mut o3: Vec<String> = Vec::new();
    o3.push(buyer2.clone());
    let d3 = InputDecl { var: 16, owners: o3 };
    let ghost gd3 = d3;
    inputs.push(d3);

    // The title travels to the seller; the price comes back.
    let mut a_lp: Vec<usize> = Vec::new();
    a_lp.push(0);
    a_lp.push(3);
    let ghost ga_lp = a_lp;
    let q1 = ChoreoOp::Comm { bind: 3, from: buyer1.clone(), to: seller.clone(), arg: 1 };
    let ghost gq1 = q1;
    let q2 = ChoreoOp::Locally {
        bind: 4,
        at: seller.clone(),
        comp: BooksellerComp::LookupPrice,
        args: a_lp,
    };
    let ghost gq2 = q2;
    let q3 = ChoreoOp::Comm { bind: 5, from: seller.clone(), to: buyer1.clone(), arg: 4 };
    let ghost gq3 = q3;

    // The buyers decide together, without the seller.
    let mut a_is: Vec<usize> = Vec::new();
    a_is.push(5);
    let ghost ga_is = a_is;
    let c1 = ChoreoOp::Locally {
        bind: 18,
        at: buyer1.clone(),
        comp: BooksellerComp::IsSome,
        args: a_is,
    };
    let ghost gc1 = c1;
    let c2 = ChoreoOp::Broadcast { bind: 19, from: buyer1.clone(), arg: 18 };
    let ghost gc2 = c2;
    let k1 = ChoreoOp::Comm { bind: 21, from: buyer2.clone(), to: buyer1.clone(), arg: 16 };
    let ghost gk1 = k1;
    let mut a_sum: Vec<usize> = Vec::new();
    a_sum.push(2);
    a_sum.push(21);
    let ghost ga_sum = a_sum;
    let k2 = ChoreoOp::Locally {
        bind: 22,
        at: buyer1.clone(),
        comp: BooksellerComp::Sum2,
        args: a_sum,
    };
    let ghost gk2 = k2;
    let mut a_aff: Vec<usize> = Vec::new();
    a_aff.push(5);
    a_aff.push(22);
    let ghost ga_aff = a_aff;
    let k3 = ChoreoOp::Locally {
        bind: 23,
        at: buyer1.clone(),
        comp: BooksellerComp::Affordable,
        args: a_aff,
    };
    let ghost gk3 = k3;
    let kp3 = Program::Then(k3, Box::new(Program::Ret(23)));
    let ghost gkp3 = kp3;
    let kp2 = Program::Then(k2, Box::new(kp3));
    let ghost gkp2 = kp2;
    let gather_then = Program::Then(k1, Box::new(kp2));
    let ghost g_gthen = gather_then;
    let ko = ChoreoOp::Locally {
        bind: 24,
        at: buyer1.clone(),
        comp: BooksellerComp::FalseComp,
        args: Vec::new(),
    };
    let ghost gko = ko;
    let gather_else = Program::Then(ko, Box::new(Program::Ret(24)));
    let ghost g_gelse = gather_else;
    let c3 = ChoreoOp::Branch {
        bind: 20,
        cond: 19,
        then_prog: Box::new(gather_then),
        else_prog: Box::new(gather_else),
    };
    let ghost gc3 = c3;
    let cp3 = Program::Then(c3, Box::new(Program::Ret(20)));
    let ghost gcp3 = cp3;
    let cp2 = Program::Then(c2, Box::new(cp3));
    let ghost gcp2 = cp2;
    let decide_body = Program::Then(c1, Box::new(cp2));
    let ghost g_decide = decide_body;
    let mut dparties: Vec<String> = Vec::new();
    dparties.push(buyer1.clone());
    dparties.push(buyer2.clone());
    let ghost g_dparties = dparties;
    let q4 = ChoreoOp::Enclave { bind: 6, parties: dparties, body: Box::new(decide_body) };
    let ghost gq4 = q4;

    // The seller reveals the date when the decision is to buy.
    let mut a_ld: Vec<usize> = Vec::new();
    a_ld.push(0);
    a_ld.push(3);
    let ghost ga_ld = a_ld;
    let t1 = ChoreoOp::Locally {
        bind: 11,
        at: seller.clone(),
        comp: BooksellerComp::LookupDate,
        args: a_ld,
    };
    let ghost gt1 = t1;
    let t2 = ChoreoOp::Comm { bind: 12, from: seller.clone(), to: buyer1.clone(), arg: 11 };
    let ghost gt2 = t2;
    let tp2 = Program::Then(t2, Box::new(Program::Ret(12)));
    let ghost gtp2 = tp2;
    let then_prog = Program::Then(t1, Box::new(tp2));
    let ghost g_then = then_prog;
    let eo = ChoreoOp::Locally {
        bind: 13,
        at: buyer1.clone(),
        comp: BooksellerComp::NoneComp,
        args: Vec::new(),
    };
    let ghost geo = eo;
    let else_prog = Program::Then(eo, Box::new(Program::Ret(13)));
    let ghost g_else = else_prog;
    let w1 = ChoreoOp::Broadcast { bind: 9, from: buyer1.clone(), arg: 6 };
    let ghost gw1 = w1;
    let w2 = ChoreoOp::Branch {
        bind: 10,
        cond: 9,
        then_prog: Box::new(then_prog),
        else_prog: Box::new(else_prog),
    };
    let ghost gw2 = w2;
    let wp2 = Program::Then(w2, Box::new(Program::Ret(10)));
    let ghost gwp2 = wp2;
    let date_body = Program::Then(w1, Box::new(wp2));
    let ghost g_date = date_body;
    let mut wparties: Vec<String> = Vec::new();
    wparties.push(buyer1.clone());
    wparties.push(seller.clone());
    let ghost g_wparties = wparties;
    let q5 = ChoreoOp::Enclave { bind: 8, parties: wparties, body: Box::new(date_body) };
    let ghost gq5 = q5;
    let q6 = ChoreoOp::Broadcast { bind: 14, from: buyer1.clone(), arg: 8 };
    let ghost gq6 = q6;

    let p6 = Program::Then(q6, Box::new(Program::Ret(14)));
    let ghost gp6 = p6;
    let p5 = Program::Then(q5, Box::new(p6));
    let ghost gp5 = p5;
    let p4 = Program::Then(q4, Box::new(p5));
    let ghost gp4 = p4;
    let p3 = Program::Then(q3, Box::new(p4));
    let ghost gp3 = p3;
    let p2 = Program::Then(q2, Box::new(p3));
    let ghost gp2 = p2;
    let body = Program::Then(q1, Box::new(p2));
    let result = Choreography { parties, n_vars: 25, inputs, body };
    proof {
        lemma_bookseller_names();
        let b1 = "Buyer1"@;
        let b2 = "Buyer2"@;
        let sl = "Seller"@;
        let all = names_of(result.parties@);
        assert(all =~= seq![b1, b2, sl]) by {
            assert(all[0] == result.parties@[0]@);
            assert(all[1] == result.parties@[1]@);
            assert(all[2] == result.parties@[2]@);
        }
        assert(all.contains(b1)) by {
            assert(all[0] == b1);
        }
        assert(all.contains(b2)) by {
            assert(all[1] == b2);
        }
        assert(all.contains(sl)) by {
            assert(all[2] == sl);
        }
        assert(crate::sem::names_distinct(all)) by {
            assert(all[0] == b1 && all[1] == b2 && all[2] == sl);
        }
        let subb = names_of(g_dparties@);
        assert(subb =~= seq![b1, b2]) by {
            assert(subb[0] == g_dparties@[0]@);
            assert(subb[1] == g_dparties@[1]@);
        }
        assert(subb.contains(b1)) by {
            assert(subb[0] == b1);
        }
        assert(subb.contains(b2)) by {
            assert(subb[1] == b2);
        }
        assert(crate::sem::names_subset(subb, all)) by {
            assert(subb[0] == b1 && subb[1] == b2);
        }
        assert(crate::sem::names_distinct(subb)) by {
            assert(subb[0] == b1 && subb[1] == b2);
        }
        let sub2 = names_of(g_wparties@);
        assert(sub2 =~= seq![b1, sl]) by {
            assert(sub2[0] == g_wparties@[0]@);
            assert(sub2[1] == g_wparties@[1]@);
        }
        assert(sub2.contains(b1)) by {
            assert(sub2[0] == b1);
        }
        assert(sub2.contains(sl)) by {
            assert(sub2[1] == sl);
        }
        assert(crate::sem::names_subset(sub2, all)) by {
            assert(sub2[0] == b1 && sub2[1] == sl);
        }
        assert(crate::sem::names_distinct(sub2)) by {
            assert(sub2[0] == b1 && sub2[1] == sl);
        }
        let own_s = names_of(gd0.owners@);
        let own_b1a = names_of(gd1.owners@);
        let own_b1b = names_of(gd2.owners@);
        let own_b2 = names_of(gd3.owners@);
        assert(own_s =~= seq![sl]) by {
            assert(own_s[0] == gd0.owners@[0]@);
        }
        assert(own_b1a =~= seq![b1]) by {
            assert(own_b1a[0] == gd1.owners@[0]@);
        }
        assert(own_b1b =~= seq![b1]) by {
            assert(own_b1b[0] == gd2.owners@[0]@);
        }
        assert(own_b2 =~= seq![b2]) by {
            assert(own_b2[0] == gd3.owners@[0]@);
        }
        assert(crate::sem::names_subset(own_s, all)) by {
            assert(own_s[0] == sl);
        }
        assert(crate::sem::names_subset(own_b1a, all)) by {
            assert(own_b1a[0] == b1);
        }
        assert(crate::sem::names_subset(own_b1b, all)) by {
            assert(own_b1b[0] == b1);
        }
        assert(crate::sem::names_subset(own_b2, all)) by {
            assert(own_b2[0] == b2);
        }
        let decls = result.inputs@;
        assert(decls =~= seq![gd0, gd1, gd2, gd3]);
        assert forall|vals: Seq<ValModel>|
            vals.len() == 4 implies {
                let outcome = #[trigger] crate::sem::choreo_sem(result, vals);
                let price = vm_price_query(vals[0], vals[1]);
                let decision = if crate::value::spec_guard(vm_is_some(price)) {
                    vm_affordable(price, vm_sum(vals[2], vals[3]))
                } else {
                    ValModel::B(false)
                };
                &&& outcome is Ok
                &&& outcome.unwrap().1 == (crate::sem::EntryModel {
                    owners: seq![b1, b2, sl],
                    val: if crate::value::spec_guard(decision) {
                        vm_date_query(vals[0], vals[1])
                    } else {
                        ValModel::Opt(Option::None)
                    },
                })
            } by {
            let inv = vals[0];
            let title = vals[1];
            let budget1 = vals[2];
            let budget2 = vals[3];
            let blank = Seq::new(25nat, |i: int| Option::None::<crate::sem::EntryModel>);
            let e0 = blank.update(0, Option::Some(crate::sem::EntryModel { owners: own_s, val: inv }));
            let e1 = e0.update(1, Option::Some(crate::sem::EntryModel { owners: own_b1a, val: title }));
            let e2 = e1.update(2, Option::Some(crate::sem::EntryModel { owners: own_b1b, val: budget1 }));
            let e2b = e2.update(16, Option::Some(crate::sem::EntryModel { owners: own_b2, val: budget2 }));
            crate::sem::lemma_init_step(all, decls, vals, blank);
            assert(decls.drop_first() =~= seq![gd1, gd2, gd3]);
            assert(vals.drop_first() =~= seq![title, budget1, budget2]) by {
                assert(vals.drop_first()[0] == title);
                assert(vals.drop_first()[1] == budget1);
                assert(vals.drop_first()[2] == budget2);
            }
            crate::sem::lemma_init_step(all, seq![gd1, gd2, gd3], seq![title, budget1, budget2], e0);
            assert(seq![gd1, gd2, gd3].drop_first() =~= seq![gd2, gd3]);
            assert(seq![title, budget1, budget2].drop_first() =~= seq![budget1, budget2]);
            crate::sem::lemma_init_step(all, seq![gd2, gd3], seq![budget1, budget2], e1);
            assert(seq![gd2, gd3].drop_first() =~= seq![gd3]);
            assert(seq![budget1, budget2].drop_first() =~= seq![budget2]);
            crate::sem::lemma_init_step(all, seq![gd3], seq![budget2], e2);
            assert(seq![gd3].drop_first() =~= Seq::<InputDecl>::empty());
            assert(seq![budget2].drop_first() =~= Seq::<ValModel>::empty());
            assert(crate::sem::init_env(all, decls, vals, blank) == Result::<
                crate::sem::CEnv,
                crate::error::ChorError,
            >::Ok(e2b));
            crate::sem::lemma_singleton_contains(b1, b1);
            crate::sem::lemma_singleton_contains(b2, b2);
            crate::sem::lemma_singleton_contains(sl, sl);
            // The title travels to the seller.
            assert(e2b[1].unwrap().owners.contains(b1)) by {
                assert(own_b1a[0] == b1);
            }
            crate::sem::lemma_sem_comm::<BooksellerComp>(3, gq1->Comm_from, gq1->Comm_to, 1, all, e2b);
            let e3 = e2b.update(3, Option::Some(crate::sem::EntryModel { owners: seq![sl], val: title }));
            crate::sem::lemma_sem_then(gq1, gp2, all, e2b, e3);
            // The seller looks the price up.
            let price = vm_price_query(inv, title);
            assert(arg_vals(e3, ga_lp@) =~= seq![inv, title]) by {
                assert(ga_lp@[0] == 0 && ga_lp@[1] == 3);
            }
            assert forall|i: int|
                0 <= i < ga_lp@.len() implies (#[trigger] ga_lp@[i]) < e3.len()
                && e3[ga_lp@[i] as int] is Some && e3[ga_lp@[i] as int].unwrap().owners.contains(
                sl,
            ) by {
                if i == 0 {
                    assert(ga_lp@[i] == 0);
                    assert(e3[0].unwrap().owners[0] == sl);
                } else {
                    assert(ga_lp@[i] == 3);
                }
            }
            crate::sem::lemma_sem_locally(4, gq2->Locally_at, BooksellerComp::LookupPrice, gq2->Locally_args, all, e3);
            let e4 = e3.update(4, Option::Some(crate::sem::EntryModel { owners: seq![sl], val: price }));
            crate::sem::lemma_sem_then(gq2, gp3, all, e3, e4);
            // The price comes back to the deciding buyer.
            crate::sem::lemma_sem_comm::<BooksellerComp>(5, gq3->Comm_from, gq3->Comm_to, 4, all, e4);
            let e5 = e4.update(5, Option::Some(crate::sem::EntryModel { owners: seq![b1], val: price }));
            crate::sem::lemma_sem_then(gq3, gp4, all, e4, e5);
            // Inside the buyers' enclave: does a price exist at all?
            let some_price = vm_is_some(price);
            assert(arg_vals(e5, ga_is@) =~= seq![price]) by {
                assert(ga_is@[0] == 5);
            }
            assert forall|i: int|
                0 <= i < ga_is@.len() implies (#[trigger] ga_is@[i]) < e5.len()
                && e5[ga_is@[i] as int] is Some && e5[ga_is@[i] as int].unwrap().owners.contains(
                b1,
            ) by {
                assert(ga_is@[i] == 5);
            }
            crate::sem::lemma_sem_locally(18, gc1->Locally_at, BooksellerComp::IsSome, gc1->Locally_args, subb, e5);
            let m1 = e5.update(18, Option::Some(crate::sem::EntryModel { owners: seq![b1], val: some_price }));
            crate::sem::lemma_sem_then(gc1, gcp2, subb, e5, m1);
            crate::sem::lemma_sem_broadcast::<BooksellerComp>(19, gc2->Broadcast_from, 18, subb, m1);
            let m2 = m1.update(19, Option::Some(crate::sem::EntryModel { owners: subb, val: some_price }));
            crate::sem::lemma_sem_then(gc2, gcp3, subb, m1, m2);
            // Gather arm: the second buyer's budget joins the first's.
            assert(m2[16].unwrap().owners.contains(b2)) by {
                assert(own_b2[0] == b2);
            }
            crate::sem::lemma_sem_comm::<BooksellerComp>(21, gk1->Comm_from, gk1->Comm_to, 16, subb, m2);
            let n1 = m2.update(21, Option::Some(crate::sem::EntryModel { owners: seq![b1], val: budget2 }));
            crate::sem::lemma_sem_then(gk1, gkp2, subb, m2, n1);
            let total = vm_sum(budget1, budget2);
            assert(arg_vals(n1, ga_sum@) =~= seq![budget1, budget2]) by {
                assert(ga_sum@[0] == 2 && ga_sum@[1] == 21);
            }
            assert forall|i: int|
                0 <= i < ga_sum@.len() implies (#[trigger] ga_sum@[i]) < n1.len()
                && n1[ga_sum@[i] as int] is Some && n1[ga_sum@[i] as int].unwrap().owners.contains(
                b1,
            ) by {
                if i == 0 {
                    assert(ga_sum@[i] == 2);
                    assert(n1[2].unwrap().owners[0] == b1);
                } else {
                    assert(ga_sum@[i] == 21);
                }
            }
            crate::sem::lemma_sem_locally(22, gk2->Locally_at, BooksellerComp::Sum2, gk2->Locally_args, subb, n1);
            let n2 = n1.update(22, Option::Some(crate::sem::EntryModel { owners: seq![b1], val: total }));
            crate::sem::lemma_sem_then(gk2, gkp3, subb, n1, n2);
            let joint = vm_affordable(price, total);
            assert(arg_vals(n2, ga_aff@) =~= seq![price, total]) by {
                assert(ga_aff@[0] == 5 && ga_aff@[1] == 22);
            }
            assert forall|i: int|
                0 <= i < ga_aff@.len() implies (#[trigger] ga_aff@[i]) < n2.len()
                && n2[ga_aff@[i] as int] is Some && n2[ga_aff@[i] as int].unwrap().owners.contains(
                b1,
            ) by {
                if i == 0 {
                    assert(ga_aff@[i] == 5);
                    assert(n2[5].unwrap().owners[0] == b1);
                } else {
                    assert(ga_aff@[i] == 22);
                }
            }
            crate::sem::lemma_sem_locally(23, gk3->Locally_at, BooksellerComp::Affordable, gk3->Locally_args, subb, n2);
            let n3 = n2.update(23, Option::Some(crate::sem::EntryModel { owners: seq![b1], val: joint }));
            crate::sem::lemma_sem_then(gk3, Program::Ret(23), subb, n2, n3);
            crate::sem::lemma_sem_ret::<BooksellerComp>(23, subb, n3);
            let gthen_ent = crate::sem::EntryModel { owners: seq![b1], val: joint };
            assert(crate::sem::sem_prog(g_gthen, subb, m2) == Result::<
                (crate::sem::CEnv, crate::sem::EntryModel),
                crate::error::ChorError,
            >::Ok((n3, gthen_ent)));
            // No price: the decision is not to buy.
            assert(arg_vals(m2, gko->Locally_args@) =~= Seq::<ValModel>::empty());
            crate::sem::lemma_sem_locally(24, gko->Locally_at, BooksellerComp::FalseComp, gko->Locally_args, subb, m2);
            let n4 = m2.update(24, Option::Some(crate::sem::EntryModel { owners: seq![b1], val: ValModel::B(false) }));
            crate::sem::lemma_sem_then(gko, Program::Ret(24), subb, m2, n4);
            crate::sem::lemma_sem_ret::<BooksellerComp>(24, subb, n4);
            let gelse_ent = crate::sem::EntryModel { owners: seq![b1], val: ValModel::B(false) };
            assert(crate::sem::sem_prog(g_gelse, subb, m2) == Result::<
                (crate::sem::CEnv, crate::sem::EntryModel),
                crate::error::ChorError,
            >::Ok((n4, gelse_ent)));
            let gg = crate::value::spec_guard(some_price);
            let garm_env = if gg { n3 } else { n4 };
            let garm_ent = if gg { gthen_ent } else { gelse_ent };
            crate::sem::lemma_sem_branch(20, 19, g_gthen, g_gelse, subb, m2, garm_env, garm_ent);
            let m3 = m2.update(20, Option::Some(garm_ent));
            crate::sem::lemma_sem_then(gc3, Program::Ret(20), subb, m2, m3);
            crate::sem::lemma_sem_ret::<BooksellerComp>(20, subb, m3);
            assert(crate::sem::sem_prog(g_decide, subb, e5) == Result::<
                (crate::sem::CEnv, crate::sem::EntryModel),
                crate::error::ChorError,
            >::Ok((m3, garm_ent)));
            assert(crate::sem::names_subset(garm_ent.owners, subb)) by {
                assert(garm_ent.owners[0] == b1);
            }
            crate::sem::lemma_sem_enclave(6, gq4->Enclave_parties, g_decide, all, e5, m3, garm_ent);
            let decision = garm_ent.val;
            let e6 = e5.update(6, Option::Some(garm_ent));
            crate::sem::lemma_sem_then(gq4, gp5, all, e5, e6);
            // Inside the date enclave, the decision is broadcast.
            crate::sem::lemma_sem_broadcast::<BooksellerComp>(9, gw1->Broadcast_from, 6, sub2, e6);
            let e9 = e6.update(9, Option::Some(crate::sem::EntryModel { owners: sub2, val: decision }));
            crate::sem::lemma_sem_then(gw1, gwp2, sub2, e6, e9);
            // Buy: the seller reveals the date.
            let dateq = vm_date_query(inv, title);
            assert(arg_vals(e9, ga_ld@) =~= seq![inv, title]) by {
                assert(ga_ld@[0] == 0 && ga_ld@[1] == 3);
            }
            assert forall|i: int|
                0 <= i < ga_ld@.len() implies (#[trigger] ga_ld@[i]) < e9.len()
                && e9[ga_ld@[i] as int] is Some && e9[ga_ld@[i] as int].unwrap().owners.contains(
                sl,
            ) by {
                if i == 0 {
                    assert(ga_ld@[i] == 0);
                    assert(e9[0].unwrap().owners[0] == sl);
                } else {
                    assert(ga_ld@[i] == 3);
                }
            }
            crate::sem::lemma_sem_locally(11, gt1->Locally_at, BooksellerComp::LookupDate, gt1->Locally_args, sub2, e9);
            let f11 = e9.update(11, Option::Some(crate::sem::EntryModel { owners: seq![sl], val: dateq }));
            crate::sem::lemma_sem_then(gt1, gtp2, sub2, e9, f11);
            crate::sem::lemma_sem_comm::<BooksellerComp>(12, gt2->Comm_from, gt2->Comm_to, 11, sub2, f11);
            let f12 = f11.update(12, Option::Some(crate::sem::EntryModel { owners: seq![b1], val: dateq }));
            crate::sem::lemma_sem_then(gt2, Program::Ret(12), sub2, f11, f12);
            crate::sem::lemma_sem_ret::<BooksellerComp>(12, sub2, f12);
            let then_ent = crate::sem::EntryModel { owners: seq![b1], val: dateq };
            assert(crate::sem::sem_prog(g_then, sub2, e9) == Result::<
                (crate::sem::CEnv, crate::sem::EntryModel),
                crate::error::ChorError,
            >::Ok((f12, then_ent)));
            // Pass: the buyer produces the absent date.
            assert(arg_vals(e9, geo->Locally_args@) =~= Seq::<ValModel>::empty());
            crate::sem::lemma_sem_locally(13, geo->Locally_at, BooksellerComp::NoneComp, geo->Locally_args, sub2, e9);
            let h13 = e9.update(13, Option::Some(crate::sem::EntryModel { owners: seq![b1], val: ValModel::Opt(Option::None) }));
            crate::sem::lemma_sem_then(geo, Program::Ret(13), sub2, e9, h13);
            crate::sem::lemma_sem_ret::<BooksellerComp>(13, sub2, h13);
            let else_ent = crate::sem::EntryModel {
                owners: seq![b1],
                val: ValModel::Opt(Option::None),
            };
            assert(crate::sem::sem_prog(g_else, sub2, e9) == Result::<
                (crate::sem::CEnv, crate::sem::EntryModel),
                crate::error::ChorError,
            >::Ok((h13, else_ent)));
            let g = crate::value::spec_guard(decision);
            let arm_env = if g { f12 } else { h13 };
            let arm_ent = if g { then_ent } else { else_ent };
            crate::sem::lemma_sem_branch(10, 9, g_then, g_else, sub2, e9, arm_env, arm_ent);
            let e10 = e9.update(10, Option::Some(arm_ent));
            crate::sem::lemma_sem_then(gw2, Program::Ret(10), sub2, e9, e10);
            crate::sem::lemma_sem_ret::<BooksellerComp>(10, sub2, e10);
            assert(crate::sem::sem_prog(g_date, sub2, e6) == Result::<
                (crate::sem::CEnv, crate::sem::EntryModel),
                crate::error::ChorError,
            >::Ok((e10, arm_ent)));
            assert(crate::sem::names_subset(arm_ent.owners, sub2)) by {
                assert(arm_ent.owners[0] == b1);
            }
            crate::sem::lemma_sem_enclave(8, gq5->Enclave_parties, g_date, all, e6, e10, arm_ent);
            let e8 = e6.update(8, Option::Some(arm_ent));
            crate::sem::lemma_sem_then(gq5, gp6, all, e6, e8);
            // The outcome is broadcast to everyone.
            assert(e8[8].unwrap().owners.contains(b1)) by {
                assert(arm_ent.owners[0] == b1);
            }
            crate::sem::lemma_sem_broadcast::<BooksellerComp>(14, gq6->Broadcast_from, 8, all, e8);
            let e14 = e8.update(14, Option::Some(crate::sem::EntryModel { owners: all, val: arm_ent.val }));
            crate::sem::lemma_sem_then(gq6, Program::Ret(14), all, e8, e14);
            crate::sem::lemma_sem_ret::<BooksellerComp>(14, all, e14);
            assert(crate::sem::choreo_sem(result, vals) == Result::<
                (crate::sem::CEnv, crate::sem::EntryModel),
                crate::error::ChorError,
            >::Ok((e14, crate::sem::EntryModel { owners: all, val: arm_ent.val })));
        }
    }
    result
}

} // verus!
