//! The rules of the HTTP transport.
//!
//! A networked transport runs an HTTP listener per participant: an inbound
//! request carries the logical sender in a header and the serialized value in
//! the body; a send posts to the addressee with a bounded retry budget.
//! The listener's accept/reject decision and the retry budget are decided
//! here; the sockets themselves live outside the library.

use vstd::prelude::*;

verus! {

/// The header that names the logical sender of an inbound message.
pub const HEADER_SRC: &'static str = "X-CHORUS-SOURCE";

/// The verdict on one inbound request.
pub struct InboundRuling {
    /// The HTTP status to answer with.
    pub status: u16,
    /// The body of the answer.
    pub reply: &'static str,
    /// Whether the request's body is accepted into the sender's queue.
    pub accept: bool,
}

/// Judges an inbound request from the presence of its source header: a
/// request naming its sender is accepted and acknowledged, one without a
/// source is rejected as bad.
pub fn rule_inbound(source: &Option<String>) -> (r: InboundRuling)
    ensures
        source is Some ==> r.status == 200 && r.reply@ == "OK"@ && r.accept,
        source is None ==> r.status == 400 && r.reply@ == "Bad Request"@ && !r.accept,
{
    match source {
        Option::Some(_) => InboundRuling { status: 200, reply: "OK", accept: true },
        Option::None => InboundRuling { status: 400, reply: "Bad Request", accept: false },
    }
}

/// A bounded retry policy: a fixed number of attempts, a fixed delay
/// between them.
pub struct RetryPolicy {
    /// How many attempts the budget allows.
    pub attempts: u32,
    /// The delay before each retry, in milliseconds.
    pub delay_ms: u64,
}

impl RetryPolicy {
    /// Whether another attempt is allowed, and after what delay: the budget
    /// is a fixed number of attempts, never extended.
    pub fn next_delay(&self, attempt: u32) -> (r: Option<u64>)
        ensures
            (r is Some) == (attempt < self.attempts),
            r matches Some(d) ==> d == self.delay_ms,
    {
        if attempt < self.attempts {
            Option::Some(self.delay_ms)
        } else {
            Option::None
        }
    }
}

} // verus!
