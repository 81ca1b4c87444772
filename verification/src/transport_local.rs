//! The in-process transport.
//!
//! One shared table of blocking queues, keyed by (sender, receiver); a send
//! encodes the value and enqueues it, a receive blocking-pops from the
//! matching queue and decodes.  All participants share one channel instance
//! — each thread holds a handle to the same queues — and each participant
//! drives its own `LocalTransport` built from the shared channel.

use vstd::prelude::*;

use crate::codec::{decode_value, encode_value};
use crate::error::ChorError;
use crate::location::{
    clone_names, find_name, string_list_of, ChoreographyLocation, LocationSet,
};
use crate::queue::BlockingQueue;
use crate::sem::names_of;
use crate::transport::Transport;
use crate::value::Value;

verus! {

/// The shared channel: one blocking queue per (sender, receiver) pair, in
/// row-major order of the location list.
pub struct LocalTransportChannel<L: LocationSet> {
    locations: Vec<String>,
    queues: Vec<BlockingQueue<Vec<u64>>>,
    location_set: core::marker::PhantomData<L>,
}

impl<L: LocationSet> LocalTransportChannel<L> {
    /// The locations the channel serves.
    pub closed spec fn spec_locations(self) -> Seq<Seq<char>> {
        names_of(self.locations@)
    }

    /// The channel holds one queue per ordered pair of locations.
    #[verifier::type_invariant]
    spec fn wf(self) -> bool {
        self.queues@.len() == self.locations@.len() * self.locations@.len()
    }

    /// Builds a channel for the locations of `L`.
    pub fn new() -> (r: Self)
        ensures
            r.spec_locations() == L::spec_names(),
    {
        let locations = string_list_of::<L>();
        let n = locations.len();
        let mut queues: Vec<BlockingQueue<Vec<u64>>> = Vec::new();
        let mut i: usize = 0;
        while i < n
            invariant
                i <= n,
                queues@.len() == i * n,
            decreases n - i,
        {
            let mut j: usize = 0;
            while j < n
                invariant
                    i < n,
                    j <= n,
                    queues@.len() == i * n + j,
                decreases n - j,
            {
                queues.push(BlockingQueue::new());
                j = j + 1;
            }
            proof {
                assert(i * n + n == (i + 1) * n) by (nonlinear_arith);
            }
            i = i + 1;
        }
        LocalTransportChannel { locations, queues, location_set: core::marker::PhantomData }
    }

    /// Another handle to the same channel: the same locations, the same
    /// underlying queues.
    pub fn handle(&self) -> (r: Self)
        ensures
            r.spec_locations() == self.spec_locations(),
    {
        proof {
            use_type_invariant(self);
        }
        let n = self.queues.len();
        let mut queues: Vec<BlockingQueue<Vec<u64>>> = Vec::new();
        let mut i: usize = 0;
        while i < n
            invariant
                i <= n,
                n == self.queues@.len(),
                queues@.len() == i,
            decreases n - i,
        {
            queues.push(self.queues[i].handle());
            i = i + 1;
        }
        LocalTransportChannel {
            locations: clone_names(&self.locations),
            queues,
            location_set: core::marker::PhantomData,
        }
    }
}

/// A builder for [`LocalTransportChannel`]: add one location at a time.
pub struct LocalTransportChannelBuilder<L: LocationSet> {
    location_set: core::marker::PhantomData<L>,
}

impl LocalTransportChannelBuilder<crate::location::HNil> {
    /// Starts from the empty location set.
    pub fn new() -> (r: Self) {
        LocalTransportChannelBuilder { location_set: core::marker::PhantomData }
    }
}

impl<L: LocationSet> LocalTransportChannelBuilder<L> {
    /// Adds a location to the set.
    pub fn with<NewLocation: ChoreographyLocation>(&self, location: NewLocation) -> (r:
        LocalTransportChannelBuilder<crate::location::HCons<NewLocation, L>>) {
        let _ = location;
        LocalTransportChannelBuilder { location_set: core::marker::PhantomData }
    }

    /// Builds the channel.
    pub fn build(&self) -> (r: LocalTransportChannel<L>)
        ensures
            r.spec_locations() == L::spec_names(),
    {
        LocalTransportChannel::new()
    }
}

/// The in-process transport of one participant: a handle on the shared
/// channel, bound to a target location.
pub struct LocalTransport<L: LocationSet, TargetLocation: ChoreographyLocation> {
    internal_locations: Vec<String>,
    channel: LocalTransportChannel<L>,
    target_location: core::marker::PhantomData<TargetLocation>,
}

impl<L: LocationSet, TargetLocation: ChoreographyLocation> LocalTransport<L, TargetLocation> {
    /// The transport mirrors its channel's location list.
    #[verifier::type_invariant]
    spec fn wf(self) -> bool {
        names_of(self.internal_locations@) == self.channel.spec_locations()
            && self.channel.wf()
    }

    /// Builds a transport for a target location over a shared channel.
    pub fn new(target: TargetLocation, local_channel: LocalTransportChannel<L>) -> (r: Self)
        ensures
            r.spec_locations_internal() == local_channel.spec_locations(),
    {
        let _ = target;
        proof {
            use_type_invariant(&local_channel);
        }
        let internal_locations = clone_names(&local_channel.locations);
        LocalTransport {
            internal_locations,
            channel: local_channel,
            target_location: core::marker::PhantomData,
        }
    }

    /// The locations the transport serves.
    pub closed spec fn spec_locations_internal(self) -> Seq<Seq<char>> {
        names_of(self.internal_locations@)
    }

    /// Builds a self-contained transport over the given locations, with a
    /// private channel of its own.
    pub fn from(locations: &Vec<String>) -> (r: Self)
        ensures
            r.spec_locations_internal() == names_of(locations@),
    {
        let locations = clone_names(locations);
        let n = locations.len();
        let mut queues: Vec<BlockingQueue<Vec<u64>>> = Vec::new();
        let mut i: usize = 0;
        while i < n
            invariant
                i <= n,
                queues@.len() == i * n,
            decreases n - i,
        {
            let mut j: usize = 0;
            while j < n
                invariant
                    i < n,
                    j <= n,
                    queues@.len() == i * n + j,
                decreases n - j,
            {
                queues.push(BlockingQueue::new());
                j = j + 1;
            }
            proof {
                assert(i * n + n == (i + 1) * n) by (nonlinear_arith);
            }
            i = i + 1;
        }
        let internal_locations = clone_names(&locations);
        LocalTransport {
            internal_locations,
            channel: LocalTransportChannel {
                locations,
                queues,
                location_set: core::marker::PhantomData,
            },
            target_location: core::marker::PhantomData,
        }
    }
}

impl<L: LocationSet, TargetLocation: ChoreographyLocation> Transport for LocalTransport<
    L,
    TargetLocation,
> {
    closed spec fn spec_locations(&self) -> Seq<Seq<char>> {
        names_of(self.internal_locations@)
    }

    fn locations(&self) -> (r: Vec<String>) {
        clone_names(&self.internal_locations)
    }

    fn send(&self, from: &String, to: &String, data: &Value) -> (r: Result<(), ChorError>)
        // The in-process send cannot fail: both names are among the
        // channel's locations by the trait's precondition.
        ensures
            r is Ok,
    {
        proof {
            use_type_invariant(self);
        }
        let i = match find_name(&self.channel.locations, from) {
            Option::Some(k) => k,
            Option::None => {
                proof {
                    assert(false);
                }
                return Result::Err(ChorError::TransportFailure);
            },
        };
        let j = match find_name(&self.channel.locations, to) {
            Option::Some(k) => k,
            Option::None => {
                proof {
                    assert(false);
                }
                return Result::Err(ChorError::TransportFailure);
            },
        };
        let n = self.channel.locations.len();
        let qlen = self.channel.queues.len();
        proof {
            assert(i * n + j < n * n) by (nonlinear_arith)
                requires
                    i < n,
                    j < n,
            ;
            assert(qlen == n * n);
        }
        let words = encode_value(data);
        self.channel.queues[i * n + j].push(words);
        Result::Ok(())
    }

    fn receive(&self, from: &String, at: &String) -> (r: Result<Value, ChorError>)
        // The in-process receive can fail only on a message that does not
        // decode: both names are among the channel's locations by the
        // trait's precondition.
        ensures
            r matches Result::Err(e) ==> e == ChorError::SerializationFailure,
    {
        proof {
            use_type_invariant(self);
        }
        let i = match find_name(&self.channel.locations, from) {
            Option::Some(k) => k,
            Option::None => {
                proof {
                    assert(false);
                }
                return Result::Err(ChorError::TransportFailure);
            },
        };
        let j = match find_name(&self.channel.locations, at) {
            Option::Some(k) => k,
            Option::None => {
                proof {
                    assert(false);
                }
                return Result::Err(ChorError::TransportFailure);
            },
        };
        let n = self.channel.locations.len();
        let qlen = self.channel.queues.len();
        proof {
            assert(i * n + j < n * n) by (nonlinear_arith)
                requires
                    i < n,
                    j < n,
            ;
            assert(qlen == n * n);
        }
        let words = self.channel.queues[i * n + j].pop();
        match decode_value(&words) {
            Option::Some(v) => Result::Ok(v),
            Option::None => Result::Err(ChorError::SerializationFailure),
        }
    }
}

} // verus!
