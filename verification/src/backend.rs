//! A self-contained in-process backend.
//!
//! The earliest form of the in-process transport: one value owns the whole
//! queue table and the location list, built directly from a list of location
//! names, with point-to-point send and receive and a sender-side broadcast.

use vstd::prelude::*;

use crate::codec::{decode_value, encode_value};
use crate::error::ChorError;
use crate::location::{clone_names, find_name, string_eq};
use crate::queue::BlockingQueue;
use crate::sem::names_of;
use crate::value::{view_of, Value};

verus! {

/// An in-process message backend over a fixed list of locations.
pub struct LocalBackend {
    locations: Vec<String>,
    queues: Vec<BlockingQueue<Vec<u64>>>,
}

impl LocalBackend {
    /// The backend holds one queue per ordered pair of locations.
    #[verifier::type_invariant]
    spec fn wf(self) -> bool {
        self.queues@.len() == self.locations@.len() * self.locations@.len()
    }

    /// The locations the backend serves.
    pub closed spec fn spec_locations(self) -> Seq<Seq<char>> {
        names_of(self.locations@)
    }

    /// Builds a backend for the given locations.
    pub fn from(locations: &Vec<String>) -> (r: Self)
        ensures
            r.spec_locations() == names_of(locations@),
    {
        let locations = clone_names(locations);
        let n = locations.len();
        let mut queues: Vec<BlockingQueue<Vec<u64>>> = Vec::new();
        let mut i: usize = 0;
        while i < n
            invariant
                i <= n,
                queues@.len() == i * n,
            decreases n - i,
        {
            let mut j: usize = 0;
            while j < n
                invariant
                    i < n,
                    j <= n,
                    queues@.len() == i * n + j,
                decreases n - j,
            {
                queues.push(BlockingQueue::new());
                j = j + 1;
            }
            proof {
                assert(i * n + n == (i + 1) * n) by (nonlinear_arith);
            }
            i = i + 1;
        }
        LocalBackend { locations, queues }
    }

    /// Another handle to the same backend.
    pub fn handle(&self) -> (r: Self)
        ensures
            r.spec_locations() == self.spec_locations(),
    {
        proof {
            use_type_invariant(self);
        }
        let n = self.queues.len();
        let mut queues: Vec<BlockingQueue<Vec<u64>>> = Vec::new();
        let mut i: usize = 0;
        while i < n
            invariant
                i <= n,
                n == self.queues@.len(),
                queues@.len() == i,
            decreases n - i,
        {
            queues.push(self.queues[i].handle());
            i = i + 1;
        }
        LocalBackend { locations: clone_names(&self.locations), queues }
    }

    /// The locations the backend serves.
    pub fn locations(&self) -> (r: Vec<String>)
        ensures
            names_of(r@) == self.spec_locations(),
    {
        clone_names(&self.locations)
    }

    /// Sends `data`, encoded, from `from` to `to`: it succeeds exactly when
    /// both names are among the backend's locations.
    pub fn send(&self, from: &String, to: &String, data: &Value) -> (r: Result<(), ChorError>)
        ensures
            (r is Ok) == (self.spec_locations().contains(from@) && self.spec_locations().contains(
                to@,
            )),
            r matches Result::Err(e) ==> e == ChorError::TransportFailure,
    {
        proof {
            use_type_invariant(self);
        }
        let i = match find_name(&self.locations, from) {
            Option::Some(k) => k,
            Option::None => {
                return Result::Err(ChorError::TransportFailure);
            },
        };
        let j = match find_name(&self.locations, to) {
            Option::Some(k) => k,
            Option::None => {
                return Result::Err(ChorError::TransportFailure);
            },
        };
        let n = self.locations.len();
        let qlen = self.queues.len();
        proof {
            assert(i * n + j < n * n) by (nonlinear_arith)
                requires
                    i < n,
                    j < n,
            ;
            assert(qlen == n * n);
        }
        let words = encode_value(data);
        self.queues[i * n + j].push(words);
        Result::Ok(())
    }

    /// Sends `data` to every location other than `from` and returns the
    /// sender's own copy, its image unchanged; it succeeds whenever `from`
    /// is among the backend's locations.
    #[verifier::loop_isolation(false)]
    pub fn broadcast(&self, from: &String, data: Value) -> (r: Result<Value, ChorError>)
        ensures
            self.spec_locations().contains(from@) ==> r is Ok,
            r matches Result::Ok(v) ==> view_of(v) == view_of(data),
            r matches Result::Err(e) ==> e == ChorError::TransportFailure,
    {
        proof {
            use_type_invariant(self);
        }
        let n = self.locations.len();
        let mut i: usize = 0;
        while i < n
            invariant
                i <= n,
                n == self.locations@.len(),
            decreases n - i,
        {
            if !string_eq(&self.locations[i], from) {
                proof {
                    assert(self.spec_locations()[i as int] == self.locations@[i as int]@);
                }
                match self.send(from, &self.locations[i], &data) {
                    Result::Ok(()) => {},
                    Result::Err(e) => {
                        assert(!self.spec_locations().contains(from@));
                        return Result::Err(ChorError::TransportFailure);
                    },
                }
            }
            i = i + 1;
        }
        Result::Ok(data)
    }

    /// Receives the next value sent by `from` and addressed to `at`,
    /// blocking until one arrives.  With both names among the backend's
    /// locations, the only possible failure is a message that does not
    /// decode.
    pub fn receive(&self, from: &String, at: &String) -> (r: Result<Value, ChorError>)
        ensures
            (r matches Result::Err(e) && e == ChorError::TransportFailure) == !(
            self.spec_locations().contains(from@) && self.spec_locations().contains(at@)),
            r matches Result::Err(e) ==> (e == ChorError::TransportFailure
                || e == ChorError::SerializationFailure),
    {
        proof {
            use_type_invariant(self);
        }
        let i = match find_name(&self.locations, from) {
            Option::Some(k) => k,
            Option::None => {
                return Result::Err(ChorError::TransportFailure);
            },
        };
        let j = match find_name(&self.locations, at) {
            Option::Some(k) => k,
            Option::None => {
                return Result::Err(ChorError::TransportFailure);
            },
        };
        let n = self.locations.len();
        let qlen = self.queues.len();
        proof {
            assert(i * n + j < n * n) by (nonlinear_arith)
                requires
                    i < n,
                    j < n,
            ;
            assert(qlen == n * n);
        }
        let words = self.queues[i * n + j].pop();
        match decode_value(&words) {
            Option::Some(v) => Result::Ok(v),
            Option::None => Result::Err(ChorError::SerializationFailure),
        }
    }
}

} // verus!
