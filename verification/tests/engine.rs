//! The codec, the engines and the laws on concrete protocols.

use chorus_lib::choreo::{Choreography, ChoreoOp, InputDecl, Program};
use chorus_lib::codec::{decode_value, encode_value, value_round_trip};
use chorus_lib::error::ChorError;
use chorus_lib::fan::{fan_in, fan_out, parallel};
use chorus_lib::kvs::KvsComp;
use chorus_lib::located::MultiplyLocated;
use chorus_lib::lockstep::epp_run_all;
use chorus_lib::project::Projector;
use chorus_lib::runner::Runner;
use chorus_lib::transport_local::{LocalTransport, LocalTransportChannelBuilder};
use chorus_lib::value::Value;

fn name_of_client() -> String {
    "Client".to_string()
}

fn name_of_primary() -> String {
    "Primary".to_string()
}

fn name_of_backup() -> String {
    "Backup".to_string()
}

fn locate_all(vals: Vec<Value>) -> Vec<MultiplyLocated<Value>> {
    let mut r = Vec::new();
    for v in vals {
        r.push(MultiplyLocated::local(v));
    }
    r
}

#[test]
fn test_codec_exact_words() {
    assert_eq!(encode_value(&Value::Unit), vec![0]);
    assert_eq!(encode_value(&Value::B(true)), vec![1, 1]);
    assert_eq!(encode_value(&Value::B(false)), vec![1, 0]);
    assert_eq!(encode_value(&Value::I(5)), vec![2, 0, 5]);
    assert_eq!(encode_value(&Value::I(-1)), vec![2, 1, 0]);
    assert_eq!(encode_value(&Value::S("ab".to_string())), vec![3, 2, 97, 98]);
    assert_eq!(encode_value(&Value::Opt(None)), vec![5]);
    assert_eq!(
        encode_value(&Value::Pair(
            Box::new(Value::Unit),
            Box::new(Value::B(false))
        )),
        vec![4, 0, 1, 0]
    );
    assert_eq!(
        encode_value(&Value::Opt(Some(Box::new(Value::I(7))))),
        vec![6, 2, 0, 7]
    );
}

#[test]
fn test_codec_round_trip_values() {
    let samples = vec![
        Value::Unit,
        Value::B(true),
        Value::I(i64::MIN),
        Value::I(i64::MAX),
        Value::S("héllo ✓ world".to_string()),
        Value::Pair(
            Box::new(Value::S("k".to_string())),
            Box::new(Value::Opt(Some(Box::new(Value::I(-42))))),
        ),
    ];
    for v in samples {
        let words = encode_value(&v);
        let back = decode_value(&words).unwrap();
        assert_eq!(back, v);
        assert_eq!(value_round_trip(&v), v);
    }
}

#[test]
fn test_codec_rejects_garbage() {
    assert_eq!(decode_value(&vec![9]), None);
    assert_eq!(decode_value(&vec![]), None);
    assert_eq!(decode_value(&vec![2, 0]), None);
    // A lone surrogate scalar value is not a character.
    assert_eq!(decode_value(&vec![3, 1, 0xD800]), None);
    // Trailing words after one full value are refused.
    assert_eq!(decode_value(&vec![0, 0]), None);
}

#[test]
fn test_comm_fidelity_across_pool() {
    // comm(Client, Primary, v): at the receiver the value equals v.
    let payload = Value::S("payload ✓".to_string());
    let choreo = Choreography {
        parties: vec![name_of_client(), name_of_primary()],
        n_vars: 2,
        inputs: vec![InputDecl {
            var: 0,
            owners: vec![name_of_client()],
        }],
        body: Program::Then(
            ChoreoOp::<KvsComp>::Comm {
                bind: 1,
                from: name_of_client(),
                to: name_of_primary(),
                arg: 0,
            },
            Box::new(Program::Ret(1)),
        ),
    };
    let outs = epp_run_all(&choreo, locate_all(vec![payload.dup()])).unwrap();
    assert_eq!(outs.len(), 2);
    let (client_name, client_ml) = &outs[0];
    assert_eq!(client_name, &name_of_client());
    assert!(!client_ml.has_value());
    let (primary_name, _) = &outs[1];
    assert_eq!(primary_name, &name_of_primary());
    let (_, primary_ml) = outs.into_iter().nth(1).unwrap();
    assert!(primary_ml.has_value());
    assert_eq!(primary_ml.into_value(), payload);
}

#[test]
fn test_broadcast_convergence() {
    // Every participant observes the identical plain value.
    let choreo = Choreography {
        parties: vec![name_of_client(), name_of_primary(), name_of_backup()],
        n_vars: 2,
        inputs: vec![InputDecl {
            var: 0,
            owners: vec![name_of_primary()],
        }],
        body: Program::Then(
            ChoreoOp::<KvsComp>::Broadcast {
                bind: 1,
                from: name_of_primary(),
                arg: 0,
            },
            Box::new(Program::Ret(1)),
        ),
    };
    let v = Value::I(314);
    let outs = epp_run_all(&choreo, locate_all(vec![v.dup()])).unwrap();
    assert_eq!(outs.len(), 3);
    for (_, ml) in outs {
        assert!(ml.has_value());
        assert_eq!(ml.into_value(), v);
    }
}

#[test]
fn test_enclave_absence() {
    // A sub-choreography on {Primary, Backup}: the client observes the
    // absent result, the member that owns it observes it normally.
    let body = Program::Then(
        ChoreoOp::<KvsComp>::Locally {
            bind: 1,
            at: name_of_primary(),
            comp: KvsComp::UnitComp,
            args: vec![],
        },
        Box::new(Program::Ret(1)),
    );
    let choreo = Choreography {
        parties: vec![name_of_client(), name_of_primary(), name_of_backup()],
        n_vars: 3,
        inputs: vec![],
        body: Program::Then(
            ChoreoOp::Enclave {
                bind: 2,
                parties: vec![name_of_primary(), name_of_backup()],
                body: Box::new(body),
            },
            Box::new(Program::Ret(2)),
        ),
    };
    let outs = epp_run_all(&choreo, vec![]).unwrap();
    let mut iter = outs.into_iter();
    let (_, client_ml) = iter.next().unwrap();
    let (_, primary_ml) = iter.next().unwrap();
    let (_, backup_ml) = iter.next().unwrap();
    assert!(!client_ml.has_value());
    assert!(primary_ml.has_value());
    assert_eq!(primary_ml.into_value(), Value::Unit);
    assert!(!backup_ml.has_value());
}

#[test]
fn test_locally_isolation_in_projection() {
    // Projecting a locally-step at a non-benefiting location executes
    // nothing and needs no transport traffic.
    let choreo = Choreography {
        parties: vec![name_of_client(), name_of_primary()],
        n_vars: 1,
        inputs: vec![],
        body: Program::Then(
            ChoreoOp::<KvsComp>::Locally {
                bind: 0,
                at: name_of_primary(),
                comp: KvsComp::UnitComp,
                args: vec![],
            },
            Box::new(Program::Ret(0)),
        ),
    };
    let channel = LocalTransportChannelBuilder::new()
        .with(chorus_lib::kvs::Client)
        .with(chorus_lib::kvs::Primary)
        .build();
    let client_projector = Projector::new(
        chorus_lib::kvs::Client,
        LocalTransport::new(chorus_lib::kvs::Client, channel.handle()),
    );
    let at_client = client_projector.epp_and_run(&choreo, vec![]).unwrap();
    assert!(!at_client.has_value());
    let primary_projector = Projector::new(
        chorus_lib::kvs::Primary,
        LocalTransport::new(chorus_lib::kvs::Primary, channel.handle()),
    );
    let at_primary = primary_projector.epp_and_run(&choreo, vec![]).unwrap();
    assert!(at_primary.has_value());
    assert_eq!(at_primary.into_value(), Value::Unit);
}

#[test]
fn test_runner_matches_lockstep() {
    // Engine equivalence on a small protocol with communication.
    let choreo = Choreography {
        parties: vec![name_of_client(), name_of_primary()],
        n_vars: 2,
        inputs: vec![InputDecl {
            var: 0,
            owners: vec![name_of_client()],
        }],
        body: Program::Then(
            ChoreoOp::<KvsComp>::Comm {
                bind: 1,
                from: name_of_client(),
                to: name_of_primary(),
                arg: 0,
            },
            Box::new(Program::Ret(1)),
        ),
    };
    let v = Value::S("same".to_string());
    let runner = Runner::new();
    let central = runner
        .run(&choreo, locate_all(vec![v.dup()]))
        .unwrap();
    let outs = epp_run_all(&choreo, locate_all(vec![v.dup()])).unwrap();
    let (_, primary_ml) = outs.into_iter().nth(1).unwrap();
    assert_eq!(primary_ml.into_value(), central);
}

#[test]
fn test_error_participant_not_declared() {
    let choreo = Choreography {
        parties: vec![name_of_client()],
        n_vars: 1,
        inputs: vec![],
        body: Program::Then(
            ChoreoOp::<KvsComp>::Locally {
                bind: 0,
                at: name_of_primary(),
                comp: KvsComp::UnitComp,
                args: vec![],
            },
            Box::new(Program::Ret(0)),
        ),
    };
    let runner = Runner::new();
    assert_eq!(
        runner.run(&choreo, vec![]),
        Err(ChorError::ParticipantNotDeclared)
    );
    assert_eq!(
        epp_run_all(&choreo, vec![]),
        Err(ChorError::ParticipantNotDeclared)
    );
}

#[test]
fn test_error_duplicate_parties() {
    let choreo = Choreography::<KvsComp> {
        parties: vec![name_of_client(), name_of_client()],
        n_vars: 1,
        inputs: vec![],
        body: Program::Ret(0),
    };
    let runner = Runner::new();
    assert_eq!(
        runner.run(&choreo, vec![]),
        Err(ChorError::ParticipantNotDeclared)
    );
}

#[test]
fn test_error_bad_variable() {
    let choreo = Choreography::<KvsComp> {
        parties: vec![name_of_client()],
        n_vars: 1,
        inputs: vec![],
        body: Program::Ret(0),
    };
    let runner = Runner::new();
    assert_eq!(runner.run(&choreo, vec![]), Err(ChorError::BadVariable));
}

#[test]
fn test_error_absent_value() {
    // The communicated variable is not owned by the sender.
    let choreo = Choreography::<KvsComp> {
        parties: vec![name_of_client(), name_of_primary()],
        n_vars: 2,
        inputs: vec![InputDecl {
            var: 0,
            owners: vec![name_of_client()],
        }],
        body: Program::Then(
            ChoreoOp::Comm {
                bind: 1,
                from: name_of_primary(),
                to: name_of_client(),
                arg: 0,
            },
            Box::new(Program::Ret(1)),
        ),
    };
    let runner = Runner::new();
    assert_eq!(
        runner.run(&choreo, locate_all(vec![Value::Unit])),
        Err(ChorError::AbsentValue)
    );
}

#[test]
fn test_error_unshared_guard() {
    // Branching on a value only the client knows.
    let choreo = Choreography::<KvsComp> {
        parties: vec![name_of_client(), name_of_primary()],
        n_vars: 2,
        inputs: vec![InputDecl {
            var: 0,
            owners: vec![name_of_client()],
        }],
        body: Program::Then(
            ChoreoOp::Branch {
                bind: 1,
                cond: 0,
                then_prog: Box::new(Program::Ret(0)),
                else_prog: Box::new(Program::Ret(0)),
            },
            Box::new(Program::Ret(1)),
        ),
    };
    let runner = Runner::new();
    assert_eq!(
        runner.run(&choreo, locate_all(vec![Value::B(true)])),
        Err(ChorError::UnsharedGuard)
    );
}

#[test]
fn test_error_divergent_branches() {
    // The two arms of a branch leave their results at different owners.
    let choreo = Choreography::<KvsComp> {
        parties: vec![name_of_client(), name_of_primary()],
        n_vars: 3,
        inputs: vec![InputDecl {
            var: 0,
            owners: vec![name_of_client(), name_of_primary()],
        }],
        body: Program::Then(
            ChoreoOp::Branch {
                bind: 2,
                cond: 0,
                then_prog: Box::new(Program::Then(
                    ChoreoOp::Locally {
                        bind: 1,
                        at: name_of_client(),
                        comp: KvsComp::UnitComp,
                        args: vec![],
                    },
                    Box::new(Program::Ret(1)),
                )),
                else_prog: Box::new(Program::Then(
                    ChoreoOp::Locally {
                        bind: 1,
                        at: name_of_primary(),
                        comp: KvsComp::UnitComp,
                        args: vec![],
                    },
                    Box::new(Program::Ret(1)),
                )),
            },
            Box::new(Program::Ret(2)),
        ),
    };
    let runner = Runner::new();
    assert_eq!(
        runner.run(&choreo, locate_all(vec![Value::B(true)])),
        Err(ChorError::DivergentBranches)
    );
}

#[test]
fn test_error_enclave_result_escapes() {
    // An enclave on {Primary} returning a value owned by the client.
    let choreo = Choreography::<KvsComp> {
        parties: vec![name_of_client(), name_of_primary()],
        n_vars: 2,
        inputs: vec![InputDecl {
            var: 0,
            owners: vec![name_of_client()],
        }],
        body: Program::Then(
            ChoreoOp::Enclave {
                bind: 1,
                parties: vec![name_of_primary()],
                body: Box::new(Program::Ret(0)),
            },
            Box::new(Program::Ret(1)),
        ),
    };
    let runner = Runner::new();
    assert_eq!(
        runner.run(&choreo, locate_all(vec![Value::Unit])),
        Err(ChorError::EnclaveResultEscapes)
    );
}

#[test]
fn test_error_input_mismatch() {
    let choreo = Choreography::<KvsComp> {
        parties: vec![name_of_client()],
        n_vars: 1,
        inputs: vec![InputDecl {
            var: 0,
            owners: vec![name_of_client()],
        }],
        body: Program::Ret(0),
    };
    let runner = Runner::new();
    assert_eq!(runner.run(&choreo, vec![]), Err(ChorError::InputMismatch));
}

#[test]
fn test_self_comm_is_local_round_trip() {
    // comm from a location to itself clones the value through the codec.
    let choreo = Choreography::<KvsComp> {
        parties: vec![name_of_client()],
        n_vars: 2,
        inputs: vec![InputDecl {
            var: 0,
            owners: vec![name_of_client()],
        }],
        body: Program::Then(
            ChoreoOp::Comm {
                bind: 1,
                from: name_of_client(),
                to: name_of_client(),
                arg: 0,
            },
            Box::new(Program::Ret(1)),
        ),
    };
    let runner = Runner::new();
    let v = Value::S("self".to_string());
    assert_eq!(runner.run(&choreo, locate_all(vec![v.dup()])).unwrap(), v);
}

#[test]
fn test_multicast_subset() {
    // Multicast to one destination: sender and destination hold the value,
    // the third participant does not.
    let choreo = Choreography::<KvsComp> {
        parties: vec![name_of_client(), name_of_primary(), name_of_backup()],
        n_vars: 2,
        inputs: vec![InputDecl {
            var: 0,
            owners: vec![name_of_client()],
        }],
        body: Program::Then(
            ChoreoOp::Multicast {
                bind: 1,
                from: name_of_client(),
                dests: vec![name_of_primary()],
                arg: 0,
            },
            Box::new(Program::Ret(1)),
        ),
    };
    let v = Value::I(8);
    let outs = epp_run_all(&choreo, locate_all(vec![v.dup()])).unwrap();
    let mut iter = outs.into_iter();
    let (_, client_ml) = iter.next().unwrap();
    let (_, primary_ml) = iter.next().unwrap();
    let (_, backup_ml) = iter.next().unwrap();
    assert!(client_ml.has_value());
    assert_eq!(client_ml.into_value(), v);
    assert!(primary_ml.has_value());
    assert_eq!(primary_ml.into_value(), v);
    assert!(!backup_ml.has_value());
}

#[test]
fn test_fan_in_gathers_budgets() {
    // Two senders fan their budgets in to the seller, which sums them.
    let b1 = "Buyer1".to_string();
    let b2 = "Buyer2".to_string();
    let sl = "Seller".to_string();
    let body = fan_in(
        &vec![b1.clone(), b2.clone()],
        &sl,
        &vec![0, 1],
        2,
        chorus_lib::bookseller::BooksellerComp::Sum2,
        4,
        Program::Ret(4),
    );
    let choreo = Choreography {
        parties: vec![b1.clone(), b2.clone(), sl.clone()],
        n_vars: 5,
        inputs: vec![
            InputDecl {
                var: 0,
                owners: vec![b1.clone()],
            },
            InputDecl {
                var: 1,
                owners: vec![b2.clone()],
            },
        ],
        body,
    };
    let runner = Runner::new();
    let central = runner
        .run(&choreo, locate_all(vec![Value::I(25), Value::I(35)]))
        .unwrap();
    assert_eq!(central, Value::I(60));
    let outs = epp_run_all(&choreo, locate_all(vec![Value::I(25), Value::I(35)])).unwrap();
    let mut iter = outs.into_iter();
    let (_, b1_ml) = iter.next().unwrap();
    let (_, b2_ml) = iter.next().unwrap();
    let (_, sl_ml) = iter.next().unwrap();
    assert!(!b1_ml.has_value());
    assert!(!b2_ml.has_value());
    assert!(sl_ml.has_value());
    assert_eq!(sl_ml.into_value(), Value::I(60));
}

#[test]
fn test_fan_out_distributes() {
    // The seller fans one value out to both buyers.
    let b1 = "Buyer1".to_string();
    let b2 = "Buyer2".to_string();
    let sl = "Seller".to_string();
    let body = fan_out::<chorus_lib::bookseller::BooksellerComp>(
        &sl,
        &vec![b1.clone(), b2.clone()],
        0,
        1,
        Program::Ret(2),
    );
    let choreo = Choreography {
        parties: vec![b1.clone(), b2.clone(), sl.clone()],
        n_vars: 3,
        inputs: vec![InputDecl {
            var: 0,
            owners: vec![sl.clone()],
        }],
        body,
    };
    let v = Value::S("catalogue".to_string());
    let outs = epp_run_all(&choreo, locate_all(vec![v.dup()])).unwrap();
    let mut iter = outs.into_iter();
    let (_, b1_ml) = iter.next().unwrap();
    let (_, b2_ml) = iter.next().unwrap();
    let (_, sl_ml) = iter.next().unwrap();
    assert!(!b1_ml.has_value());
    assert!(b2_ml.has_value());
    assert_eq!(b2_ml.into_value(), v);
    assert!(!sl_ml.has_value());
}

#[test]
fn test_parallel_independent() {
    // Each member computes its own facet; nothing crosses the network.
    let b1 = "Buyer1".to_string();
    let b2 = "Buyer2".to_string();
    let body = parallel(
        &vec![b1.clone(), b2.clone()],
        vec![
            chorus_lib::bookseller::BooksellerComp::NoneComp,
            chorus_lib::bookseller::BooksellerComp::FalseComp,
        ],
        0,
        Program::Ret(1),
    );
    let choreo = Choreography {
        parties: vec![b1.clone(), b2.clone()],
        n_vars: 2,
        inputs: vec![],
        body,
    };
    let outs = epp_run_all(&choreo, vec![]).unwrap();
    let mut iter = outs.into_iter();
    let (_, b1_ml) = iter.next().unwrap();
    let (_, b2_ml) = iter.next().unwrap();
    assert!(!b1_ml.has_value());
    assert!(b2_ml.has_value());
    assert_eq!(b2_ml.into_value(), Value::B(false));
}

#[test]
fn test_http_rules() {
    let accepted = chorus_lib::http_rules::rule_inbound(&Some("Client".to_string()));
    assert_eq!(accepted.status, 200);
    assert_eq!(accepted.reply, "OK");
    assert!(accepted.accept);
    let rejected = chorus_lib::http_rules::rule_inbound(&None);
    assert_eq!(rejected.status, 400);
    assert_eq!(rejected.reply, "Bad Request");
    assert!(!rejected.accept);

    let policy = chorus_lib::http_rules::RetryPolicy {
        attempts: 3,
        delay_ms: 1000,
    };
    assert_eq!(policy.next_delay(0), Some(1000));
    assert_eq!(policy.next_delay(2), Some(1000));
    assert_eq!(policy.next_delay(3), None);
}
