//! The primary/backup key-value store scenarios.

use chorus_lib::kvs::{
    empty_state, handle_request, kv_lookup, parse_request, PrimaryBackupKvsChoreography, Request,
};
use chorus_lib::located::MultiplyLocated;
use chorus_lib::lockstep::epp_run_all;
use chorus_lib::runner::Runner;
use chorus_lib::value::Value;

fn some_str(s: &str) -> Value {
    Value::Opt(Some(Box::new(Value::S(s.to_string()))))
}

fn first_of(pair: &Value) -> Value {
    match pair {
        Value::Pair(a, _b) => a.dup(),
        _ => Value::Unit,
    }
}

fn entry_value(env: &Vec<Option<(Vec<String>, Value)>>, var: usize) -> Value {
    match &env[var] {
        Some((_owners, v)) => v.dup(),
        None => Value::Unit,
    }
}

#[test]
fn test_is_mutating() {
    assert!(Request::Put("k".to_string(), "v".to_string()).is_mutating());
    assert!(!Request::Get("k".to_string()).is_mutating());
}

#[test]
fn test_parse_request() {
    assert_eq!(
        parse_request("GET hello"),
        Some(Request::Get("hello".to_string()))
    );
    assert_eq!(
        parse_request("PUT hello world"),
        Some(Request::Put("hello".to_string(), "world".to_string()))
    );
    assert_eq!(
        parse_request("  PUT\thello   world\n"),
        Some(Request::Put("hello".to_string(), "world".to_string()))
    );
    assert_eq!(parse_request("DEL hello"), None);
    assert_eq!(parse_request("GET"), None);
    assert_eq!(parse_request("PUT k"), None);
    assert_eq!(parse_request(""), None);
}

#[test]
fn test_handle_request_put_then_get() {
    let state = empty_state();
    let put = Request::Put("Hello".to_string(), "World".to_string()).to_value();
    let handled = handle_request(&state, &put);
    let new_state = first_of(&handled);
    assert_eq!(
        kv_lookup(&new_state, &"Hello".to_string()),
        some_str("World")
    );
    let get = Request::Get("Hello".to_string()).to_value();
    let answered = handle_request(&new_state, &get);
    match answered {
        Value::Pair(_state2, resp) => assert_eq!(*resp, some_str("World")),
        other => panic!("handled request is not a pair: {:?}", other),
    }
}

#[test]
fn test_kvs_choreography() {
    let choreo = PrimaryBackupKvsChoreography::choreography();
    let runner = Runner::new();
    let put = Request::Put("Hello".to_string(), "World".to_string());
    let (first_response, env) = runner
        .run_full(
            &choreo,
            vec![
                runner.local(put.to_value()),
                runner.local(empty_state()),
                runner.local(empty_state()),
            ],
        )
        .unwrap();
    assert_eq!(first_response, Value::Opt(None));

    // The primary's state after the mutating request.
    let primary_pair = entry_value(&env, PrimaryBackupKvsChoreography::VAR_PRIMARY_PAIR);
    let primary_state = first_of(&primary_pair);
    assert_eq!(
        kv_lookup(&primary_state, &"Hello".to_string()),
        some_str("World")
    );

    // The backup's state independently holds the binding: the replication
    // sub-protocol ran inside the enclave.
    let backup_pair = entry_value(&env, PrimaryBackupKvsChoreography::VAR_BACKUP_PAIR);
    let backup_state = first_of(&backup_pair);
    assert_eq!(
        kv_lookup(&backup_state, &"Hello".to_string()),
        some_str("World")
    );

    // A subsequent read is answered and skips replication.
    let get = Request::Get("Hello".to_string());
    let (second_response, env2) = runner
        .run_full(
            &choreo,
            vec![
                runner.local(get.to_value()),
                runner.local(primary_state),
                runner.local(backup_state),
            ],
        )
        .unwrap();
    assert_eq!(second_response, some_str("World"));
    // The enclave's replication arm did not run: its result is the unit
    // value bound at the backup.
    let skipped = entry_value(&env2, PrimaryBackupKvsChoreography::VAR_BACKUP_PAIR);
    assert_eq!(skipped, Value::Unit);
}

#[test]
fn test_kvs_distributed_agrees() {
    // The same store protocol through the lockstep distributed run: the
    // client's answer equals the central one.
    let choreo = PrimaryBackupKvsChoreography::choreography();
    let put = Request::Put("Hello".to_string(), "World".to_string());
    let inputs = || {
        vec![
            MultiplyLocated::local(put.to_value()),
            MultiplyLocated::local(empty_state()),
            MultiplyLocated::local(empty_state()),
        ]
    };
    let runner = Runner::new();
    let central = runner.run(&choreo, inputs()).unwrap();
    let outs = epp_run_all(&choreo, inputs()).unwrap();
    let (client_name, client_ml) = outs.into_iter().next().unwrap();
    assert_eq!(client_name, "Client".to_string());
    assert!(client_ml.has_value());
    assert_eq!(client_ml.into_value(), central);
}
