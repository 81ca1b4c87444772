//! The transport contract and its configuration.
//!
//! A transport is a peer-addressed channel scoped to a set of locations: it
//! can send a portable value from one location to another and receive one.
//! Messages between a fixed sender/receiver pair arrive in send order; what a
//! `receive` hands back depends on what the peer sent, so nothing more than
//! well-formedness can be promised about it — the projector validates every
//! received value itself.

use vstd::prelude::*;

use crate::error::ChorError;
use crate::located::{assoc_lookup, lemma_assoc_push, lemma_assoc_update};
use crate::location::{ChoreographyLocation, HCons, LocationSet};
use crate::value::Value;

verus! {

/// A peer-addressed channel over a set of locations.  Implement this trait
/// to define a custom transport; the library ships an in-process queue
/// transport, and an HTTP transport can be built around the rules in
/// [`crate::http_rules`].
pub trait Transport {
    /// The locations this transport can carry messages between.  An
    /// implementation outside the verified world may leave the default,
    /// which promises nothing.
    open spec fn spec_locations(&self) -> Seq<Seq<char>> {
        Seq::empty()
    }

    /// The locations this transport can carry messages between.
    fn locations(&self) -> (r: Vec<String>)
        ensures
            crate::sem::names_of(r@) == self.spec_locations(),
    ;

    /// Sends `data` from `from` to `to`.  An error is a transport failure:
    /// the send could not be completed after the transport's own retries.
    fn send(&self, from: &String, to: &String, data: &Value) -> (r: Result<(), ChorError>)
        requires
            self.spec_locations().contains(from@),
            self.spec_locations().contains(to@),
        ensures
            r matches Result::Err(e) ==> (e == ChorError::TransportFailure
                || e == ChorError::SerializationFailure),
    ;

    /// Receives the next value sent by `from` and addressed to `at`, blocking
    /// until one is available.
    fn receive(&self, from: &String, at: &String) -> (r: Result<Value, ChorError>)
        requires
            self.spec_locations().contains(from@),
            self.spec_locations().contains(at@),
        ensures
            r matches Result::Err(e) ==> (e == ChorError::TransportFailure
                || e == ChorError::SerializationFailure),
    ;
}

/// Configuration of a transport: one piece of information per location, and
/// one for the target the transport is built for.
pub struct TransportConfig<Target: ChoreographyLocation, TargetInfo, L: LocationSet, Info> {
    /// The information about each location, by name.
    pub info: Vec<(String, Info)>,
    /// The target location and its information.
    pub target_info: (Target, TargetInfo),
    /// The location set the configuration covers.
    pub location_set: core::marker::PhantomData<L>,
}

/// A builder for [`TransportConfig`]: start from the target, add one
/// location at a time.
pub struct TransportConfigBuilder<Target: ChoreographyLocation, TargetInfo, L: LocationSet, Info> {
    target: (Target, TargetInfo),
    info: Vec<(String, Info)>,
    location_set: core::marker::PhantomData<L>,
}

impl<Target: ChoreographyLocation, TargetInfo, Info> TransportConfigBuilder<
    Target,
    TargetInfo,
    HCons<Target, crate::location::HNil>,
    Info,
> {
    /// Starts a configuration for a given target.
    pub fn for_target(target: Target, info: TargetInfo) -> (r: Self)
        ensures
            r.spec_info().len() == 0,
    {
        TransportConfigBuilder {
            target: (target, info),
            info: Vec::new(),
            location_set: core::marker::PhantomData,
        }
    }
}

impl<Target: ChoreographyLocation, TargetInfo, L: LocationSet, Info> TransportConfigBuilder<
    Target,
    TargetInfo,
    L,
    Info,
> {
    /// The gathered location information.
    pub closed spec fn spec_info(self) -> Seq<(String, Info)> {
        self.info@
    }

    /// Adds the information about one more location; adding a location that
    /// is already configured replaces its information, as in a map keyed by
    /// location name.
    #[verifier::loop_isolation(false)]
    pub fn with<NewLocation: ChoreographyLocation>(self, location: NewLocation, info: Info) -> (r:
        TransportConfigBuilder<Target, TargetInfo, HCons<NewLocation, L>, Info>)
        ensures
            assoc_lookup(r.spec_info(), NewLocation::spec_name()) == Option::Some(info),
            forall|n: Seq<char>|
                n != NewLocation::spec_name() ==> #[trigger] assoc_lookup(r.spec_info(), n)
                    == assoc_lookup(self.spec_info(), n),
    {
        let _ = location;
        let ghost orig = self.spec_info();
        let name: String = NewLocation::name().to_owned();
        let mut new_info = self.info;
        assert(new_info@ == orig);
        let count = new_info.len();
        let mut i: usize = 0;
        while i < count
            invariant
                i <= count,
                count == new_info@.len(),
                new_info@ == orig,
                name@ == NewLocation::spec_name(),
                forall|j: int| 0 <= j < i ==> (#[trigger] new_info@[j]).0@ != name@,
            decreases count - i,
        {
            if crate::location::string_eq(&new_info[i].0, &name) {
                let pair = (name, info);
                let ghost pe = pair;
                new_info.set(i, pair);
                let ghost newents = new_info@;
                let result = TransportConfigBuilder {
                    target: self.target,
                    info: new_info,
                    location_set: core::marker::PhantomData,
                };
                proof {
                    lemma_assoc_update(orig, i as int, pe);
                    assert(newents == orig.update(i as int, pe));
                    assert(result.spec_info() == newents);
                    assert forall|n: Seq<char>|
                        n != NewLocation::spec_name() implies #[trigger] assoc_lookup(
                        result.spec_info(),
                        n,
                    ) == assoc_lookup(orig, n) by {
                        assert(assoc_lookup(orig.update(i as int, pe), n) == assoc_lookup(
                            orig,
                            n,
                        ));
                        assert(assoc_lookup(result.spec_info(), n) == assoc_lookup(
                            orig.update(i as int, pe),
                            n,
                        ));
                    }
                }
                return result;
            }
            i = i + 1;
        }
        let pair = (name, info);
        let ghost pe = pair;
        new_info.push(pair);
        let ghost newents = new_info@;
        let result = TransportConfigBuilder {
            target: self.target,
            info: new_info,
            location_set: core::marker::PhantomData,
        };
        proof {
            lemma_assoc_push(orig, pe);
            assert(newents == orig.push(pe));
            assert(result.spec_info() == newents);
            assert forall|n: Seq<char>|
                n != NewLocation::spec_name() implies #[trigger] assoc_lookup(
                result.spec_info(),
                n,
            ) == assoc_lookup(orig, n) by {
                assert(assoc_lookup(orig.push(pe), n) == assoc_lookup(orig, n));
                assert(assoc_lookup(result.spec_info(), n) == assoc_lookup(orig.push(pe), n));
            }
        }
        result
    }

    /// Builds the configuration.
    pub fn build(self) -> (r: TransportConfig<Target, TargetInfo, L, Info>)
        ensures
            r.info@ == self.spec_info(),
    {
        TransportConfig {
            info: self.info,
            target_info: self.target,
            location_set: core::marker::PhantomData,
        }
    }
}

} // verus!
