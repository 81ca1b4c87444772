//! Choreographic programming: write a multi-party protocol as one program
//! and derive, by endpoint projection, the local behaviour of each
//! participant.
//!
//! A protocol is a [`choreo::Choreography`]: a declared participant set, a
//! list of located inputs, and a body built from the choreographic
//! operations — local computation, point-to-point communication, broadcast,
//! multicast, sub-choreography enclaves, and branching on a broadcast guard.
//! Three engines execute it:
//!
//! - [`runner::Runner`] runs it centrally in one process and is verified
//!   against the central semantics [`sem::choreo_sem`];
//! - [`project::Projector`] runs one participant's projection over a
//!   [`transport::Transport`] and is verified against the ownership
//!   semantics [`sem::osem_prog`]: a value is present at the target exactly
//!   when the target owns it, a pure function of the program text;
//! - [`lockstep::epp_run_all`] runs every participant's projection in one
//!   process through a message pool and the serialization codec, and its
//!   contract is the engine-equivalence theorem: every location observes
//!   exactly what the central semantics assigns to it, or the same error.
//!
//! The laws of the operation set — location isolation, communication
//! fidelity, broadcast convergence, enclave absence, branching agreement —
//! are stated and proved in [`laws`], resting on the round-trip theorem of
//! the [`codec`].
//!
//! Fan-out, fan-in and parallel computation are derived forms, shipped as
//! verified builders in [`fan`] that expand a sub-group into per-member
//! core operations.
//!
//! Two example protocols ship with the engine: the bookseller
//! ([`bookseller`]) and a primary/backup key-value store ([`kvs`]).
//! Messages travel over the in-process queue transport
//! ([`transport_local`]); an HTTP transport can be built outside the
//! verified world around the rules of [`http_rules`].

pub mod backend;
pub mod bookseller;
pub mod choreo;
pub mod codec;
pub mod error;
pub mod fan;
pub mod http_rules;
pub mod kvs;
pub mod laws;
pub mod located;
pub mod location;
pub mod lockstep;
pub mod ownership;
pub mod pool;
pub mod portable;
pub mod project;
pub mod queue;
pub mod runner;
pub mod sem;
pub mod transport;
pub mod transport_local;
pub mod value;
