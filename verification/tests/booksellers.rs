//! The bookseller scenarios.

use chorus_lib::bookseller::{
    collaborative_bookseller, date_value, unilateral_bookseller, BooksellerComp,
};
use chorus_lib::choreo::Choreography;
use chorus_lib::located::MultiplyLocated;
use chorus_lib::lockstep::epp_run_all;
use chorus_lib::runner::Runner;
use chorus_lib::value::Value;

fn entry(title: &str, price: i64, y: i64, m: i64, d: i64, rest: Value) -> Value {
    Value::Pair(
        Box::new(Value::Pair(
            Box::new(Value::S(title.to_string())),
            Box::new(Value::Pair(
                Box::new(Value::I(price)),
                Box::new(date_value(y, m, d)),
            )),
        )),
        Box::new(rest),
    )
}

fn inventory() -> Value {
    entry(
        "TAPL",
        50,
        2023,
        8,
        3,
        entry("HoTT", 150, 2023, 9, 18, Value::Unit),
    )
}

fn locate_all(vals: Vec<Value>) -> Vec<MultiplyLocated<Value>> {
    let mut r = Vec::new();
    for v in vals {
        r.push(MultiplyLocated::local(v));
    }
    r
}

fn some_date(y: i64, m: i64, d: i64) -> Value {
    Value::Opt(Some(Box::new(date_value(y, m, d))))
}

fn run_case(
    choreo: &Choreography<BooksellerComp>,
    inputs: Vec<Value>,
    answer: Value,
) {
    let runner = Runner::new();
    let mut central_inputs = Vec::new();
    for v in &inputs {
        central_inputs.push(runner.local(v.dup()));
    }
    let central = runner.run(choreo, central_inputs).unwrap();
    assert_eq!(central, answer);

    let outs = epp_run_all(choreo, locate_all(inputs)).unwrap();
    for (_, ml) in outs {
        assert!(ml.has_value());
        assert_eq!(ml.into_value(), answer);
    }
}

fn run_test(title: &str, budget1: i64, budget2: Option<i64>, answer: Value) {
    match budget2 {
        Some(b2) => {
            let choreo = collaborative_bookseller();
            run_case(
                &choreo,
                vec![
                    inventory(),
                    Value::S(title.to_string()),
                    Value::I(budget1),
                    Value::I(b2),
                ],
                answer,
            );
        }
        None => {
            let choreo = unilateral_bookseller();
            run_case(
                &choreo,
                vec![inventory(), Value::S(title.to_string()), Value::I(budget1)],
                answer,
            );
        }
    }
}

#[test]
fn booksellers_main() {
    run_test("TAPL", 100, None, some_date(2023, 8, 3));
    run_test("HoTT", 25, None, Value::Opt(None));
    run_test("TAPL", 30, Some(30), some_date(2023, 8, 3));
    run_test("HoTT", 30, Some(30), Value::Opt(None));
}

#[test]
fn bookseller_affordable() {
    // A single buyer with budget 100 can afford a book priced 80 and learns
    // its delivery date.
    let choreo = unilateral_bookseller();
    run_case(
        &choreo,
        vec![
            entry("TAPL", 80, 2023, 8, 3, Value::Unit),
            Value::S("TAPL".to_string()),
            Value::I(100),
        ],
        some_date(2023, 8, 3),
    );
}

#[test]
fn bookseller_too_expensive() {
    // A single buyer with budget 100 cannot afford a book priced 150: no
    // delivery date is produced.
    let choreo = unilateral_bookseller();
    run_case(
        &choreo,
        vec![
            entry("HoTT", 150, 2023, 9, 18, Value::Unit),
            Value::S("HoTT".to_string()),
            Value::I(100),
        ],
        Value::Opt(None),
    );
}

#[test]
fn bookseller_unknown_title() {
    let choreo = unilateral_bookseller();
    run_case(
        &choreo,
        vec![inventory(), Value::S("SICP".to_string()), Value::I(1000)],
        Value::Opt(None),
    );
}
