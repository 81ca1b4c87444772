//! An in-memory message pool.
//!
//! The network-free distributed run ([`crate::lockstep`]) moves every
//! message through this pool: a send enqueues an encoded value addressed
//! from one location to another, and the addressee takes it out again.  The
//! lockstep schedule keeps at most one message in flight, and the pool's
//! contracts say exactly which message travels.

use vstd::prelude::*;

verus! {

/// A pool of addressed, encoded messages.
pub struct MessagePool {
    messages: Vec<(String, String, Vec<u64>)>,
}

impl MessagePool {
    /// The messages in flight: sender name, addressee name, encoded words.
    pub closed spec fn msgs(self) -> Seq<(Seq<char>, Seq<char>, Seq<u64>)> {
        self.messages@.map_values(|m: (String, String, Vec<u64>)| (m.0@, m.1@, m.2@))
    }

    /// Builds an empty pool.
    pub fn new() -> (r: MessagePool)
        ensures
            r.msgs() == Seq::<(Seq<char>, Seq<char>, Seq<u64>)>::empty(),
    {
        let r = MessagePool { messages: Vec::new() };
        proof {
            assert(r.msgs() =~= Seq::<(Seq<char>, Seq<char>, Seq<u64>)>::empty());
        }
        r
    }

    /// Enqueues a message.
    pub fn send(&mut self, from: &String, to: &String, words: Vec<u64>)
        ensures
            final(self).msgs() == old(self).msgs().push((from@, to@, words@)),
    {
        let ghost before = self.messages@;
        self.messages.push((from.clone(), to.clone(), words));
        proof {
            assert(final(self).msgs() =~= old(self).msgs().push((from@, to@, words@)));
        }
    }

    /// Takes out the one in-flight message, which must be addressed from
    /// `from` to `to`.
    pub fn recv(&mut self, from: &String, to: &String) -> (r: Vec<u64>)
        requires
            old(self).msgs().len() == 1,
            old(self).msgs()[0].0 == from@,
            old(self).msgs()[0].1 == to@,
        ensures
            r@ == old(self).msgs()[0].2,
            final(self).msgs() == Seq::<(Seq<char>, Seq<char>, Seq<u64>)>::empty(),
    {
        match self.messages.pop() {
            Option::Some(m) => {
                proof {
                    assert(final(self).msgs() =~= Seq::<(Seq<char>, Seq<char>, Seq<u64>)>::empty());
                }
                m.2
            },
            Option::None => vstd::pervasive::unreached(),
        }
    }
}

} // verus!
