//! The blocking queue and the in-process transport.

use chorus_lib::kvs::{Client, Primary};
use chorus_lib::location::ChoreographyLocation;
use chorus_lib::queue::BlockingQueue;
use chorus_lib::transport::Transport;
use chorus_lib::transport_local::{LocalTransport, LocalTransportChannelBuilder};
use chorus_lib::value::Value;

#[test]
fn test_blocking_queue_push_pop() {
    let queue = BlockingQueue::<i32>::new();
    queue.push(1);
    queue.push(2);
    queue.push(3);
    assert_eq!(queue.pop(), 1);
    assert_eq!(queue.pop(), 2);
    assert_eq!(queue.pop(), 3);
}

#[test]
fn test_blocking_queue_handles_share() {
    let queue = BlockingQueue::<i32>::new();
    let other = queue.handle();
    queue.push(7);
    assert_eq!(other.pop(), 7);
}

#[test]
fn test_local_transport() {
    let v = Value::I(42);

    let transport_channel = LocalTransportChannelBuilder::new()
        .with(Client)
        .with(Primary)
        .build();

    let sender = LocalTransport::new(Client, transport_channel.handle());
    let receiver = LocalTransport::new(Primary, transport_channel.handle());

    let from = <Client as ChoreographyLocation>::name().to_string();
    let to = <Primary as ChoreographyLocation>::name().to_string();
    sender.send(&from, &to, &v).unwrap();
    let v2 = receiver.receive(&from, &to).unwrap();
    assert_eq!(v2, Value::I(42));
}

#[test]
fn test_local_transport_fifo_per_pair() {
    let transport_channel = LocalTransportChannelBuilder::new()
        .with(Client)
        .with(Primary)
        .build();
    let sender = LocalTransport::new(Client, transport_channel.handle());
    let receiver = LocalTransport::new(Primary, transport_channel.handle());
    let from = <Client as ChoreographyLocation>::name().to_string();
    let to = <Primary as ChoreographyLocation>::name().to_string();
    sender.send(&from, &to, &Value::I(1)).unwrap();
    sender.send(&from, &to, &Value::I(2)).unwrap();
    sender.send(&from, &to, &Value::I(3)).unwrap();
    assert_eq!(receiver.receive(&from, &to).unwrap(), Value::I(1));
    assert_eq!(receiver.receive(&from, &to).unwrap(), Value::I(2));
    assert_eq!(receiver.receive(&from, &to).unwrap(), Value::I(3));
}

#[test]
fn test_local_backend_send_receive() {
    let locs = vec!["Client".to_string(), "Primary".to_string()];
    let backend = chorus_lib::backend::LocalBackend::from(&locs);
    let other = backend.handle();
    backend
        .send(&locs[0], &locs[1], &Value::S("hi".to_string()))
        .unwrap();
    let got = other.receive(&locs[0], &locs[1]).unwrap();
    assert_eq!(got, Value::S("hi".to_string()));
}

#[test]
fn test_local_backend_broadcast() {
    let locs = vec![
        "Client".to_string(),
        "Primary".to_string(),
        "Backup".to_string(),
    ];
    let backend = chorus_lib::backend::LocalBackend::from(&locs);
    let own = backend
        .broadcast(&locs[0], Value::I(9))
        .unwrap();
    assert_eq!(own, Value::I(9));
    assert_eq!(backend.receive(&locs[0], &locs[1]).unwrap(), Value::I(9));
    assert_eq!(backend.receive(&locs[0], &locs[2]).unwrap(), Value::I(9));
}
