//! The agent service: one fixed value, one listening endpoint.
//!
//! An agent answers each inbound message according to a two-state protocol:
//! `"talk"` draws the agent's value, big-endian encoded; `"stop"` draws no
//! response and terminates the service loop; anything else is ignored.
//! The networking itself lives outside the library; this module holds the
//! agent's state, its per-message step function, and the laws that hold
//! over a whole run of messages.

use vstd::prelude::*;

use crate::codec::{be_bytes, encode_value};

verus! {

/// The bytes of the `"talk"` request.
pub open spec fn talk_bytes() -> Seq<u8> {
    seq![116u8, 97u8, 108u8, 107u8]
}

/// The bytes of the `"stop"` request.
pub open spec fn stop_bytes() -> Seq<u8> {
    seq![115u8, 116u8, 111u8, 112u8]
}

/// The `"talk"` request as a byte vector, ready to be written to an agent.
pub fn talk_message() -> (r: Vec<u8>)
    ensures
        r@ == talk_bytes(),
{
    let mut out: Vec<u8> = Vec::new();
    out.push(116);
    out.push(97);
    out.push(108);
    out.push(107);
    proof {
        assert(out@ =~= talk_bytes());
    }
    out
}

/// The `"stop"` request as a byte vector, ready to be written to an agent.
pub fn stop_message() -> (r: Vec<u8>)
    ensures
        r@ == stop_bytes(),
{
    let mut out: Vec<u8> = Vec::new();
    out.push(115);
    out.push(116);
    out.push(111);
    out.push(112);
    proof {
        assert(out@ =~= stop_bytes());
    }
    out
}

fn is_talk(msg: &Vec<u8>) -> (r: bool)
    ensures
        r <==> msg@ == talk_bytes(),
{
    let r = msg.len() == 4 && msg[0] == 116 && msg[1] == 97 && msg[2] == 108 && msg[3] == 107;
    proof {
        if r {
            assert(msg@ =~= talk_bytes());
        }
    }
    r
}

fn is_stop(msg: &Vec<u8>) -> (r: bool)
    ensures
        r <==> msg@ == stop_bytes(),
{
    let r = msg.len() == 4 && msg[0] == 115 && msg[1] == 116 && msg[2] == 111 && msg[3] == 112;
    proof {
        if r {
            assert(msg@ =~= stop_bytes());
        }
    }
    r
}

/// One value-holding service. The value is fixed at creation and the role
/// is never sent over the wire; `stopped` records whether the service loop
/// has seen a `"stop"` request.
pub struct Agent {
    pub value: u16,
    pub liar: bool,
    pub stopped: bool,
}

impl Agent {
    /// The value invariant fixed at creation: a truthful agent holds the
    /// target itself, a liar holds a value in `[1, max_value]` that is not
    /// the target.
    pub open spec fn wf(self, target: u16, max_value: u16) -> bool {
        if self.liar {
            1 <= self.value <= max_value && self.value != target
        } else {
            self.value == target
        }
    }

    /// Create an agent. A truthful agent takes the target as its value; a
    /// liar draws uniformly from `[1, max_value]` excluding the target.
    pub fn new(target: u16, max_value: u16, liar: bool) -> (r: Agent)
        requires
            liar ==> max_value >= 2,
        ensures
            r.wf(target, max_value),
            r.liar == liar,
            !r.stopped,
    {
        let value = if liar {
            let draw = draw_in_range(1, max_value);
            liar_value(target, max_value, draw)
        } else {
            target
        };
        Agent { value, liar, stopped: false }
    }

    /// Serve one inbound message: answer `"talk"` with the value's two-byte
    /// big-endian form, terminate on `"stop"` without answering, and ignore
    /// anything else. A stopped agent neither answers nor changes.
    pub fn handle_connection(&mut self, msg: &Vec<u8>) -> (r: Option<Vec<u8>>)
        ensures
            *final(self) == spec_step(*old(self), msg@),
            r is Some <==> spec_response(*old(self), msg@) is Some,
            r matches Some(bytes) ==> spec_response(*old(self), msg@) == Some(bytes@),
    {
        if self.stopped {
            None
        } else if is_talk(msg) {
            proof {
                assert(talk_bytes()[0] != stop_bytes()[0]);
            }
            Some(encode_value(self.value))
        } else if is_stop(msg) {
            self.stopped = true;
            None
        } else {
            None
        }
    }
}

/// The state after one message: `"stop"` terminates a running agent, every
/// other message leaves the state unchanged.
pub open spec fn spec_step(a: Agent, msg: Seq<u8>) -> Agent {
    if !a.stopped && msg == stop_bytes() {
        Agent { value: a.value, liar: a.liar, stopped: true }
    } else {
        a
    }
}

/// The response to one message: a running agent answers `"talk"` with its
/// encoded value; every other case draws no bytes at all.
pub open spec fn spec_response(a: Agent, msg: Seq<u8>) -> Option<Seq<u8>> {
    if !a.stopped && msg == talk_bytes() {
        Some(be_bytes(a.value))
    } else {
        None
    }
}

/// The state after a whole run of inbound messages, served in order.
pub open spec fn spec_run(a: Agent, msgs: Seq<Seq<u8>>) -> Agent
    decreases msgs.len(),
{
    if msgs.len() == 0 {
        a
    } else {
        spec_run(spec_step(a, msgs[0]), msgs.drop_first())
    }
}

/// The response the agent gives to the `i`-th message of a run.
pub open spec fn response_at(a: Agent, msgs: Seq<Seq<u8>>, i: int) -> Option<Seq<u8>> {
    spec_response(spec_run(a, msgs.take(i)), msgs[i])
}

/// No message changes an agent's value or role, and a stopped agent never
/// changes at all.
pub proof fn lemma_run_preserves(a: Agent, msgs: Seq<Seq<u8>>)
    ensures
        spec_run(a, msgs).value == a.value,
        spec_run(a, msgs).liar == a.liar,
        a.stopped ==> spec_run(a, msgs) == a,
    decreases msgs.len(),
{
    if msgs.len() > 0 {
        lemma_run_preserves(spec_step(a, msgs[0]), msgs.drop_first());
    }
}

/// Law: whenever a liar agent answers a query, at any point of its
/// lifetime, the answer encodes its one fixed value, which lies in
/// `[1, max_value]` and differs from the target.
pub proof fn lemma_liar_agent(a: Agent, target: u16, max_value: u16, msgs: Seq<Seq<u8>>, i: int)
    requires
        a.wf(target, max_value),
        a.liar,
        0 <= i < msgs.len(),
    ensures
        (response_at(a, msgs, i) matches Some(bytes) ==> {
            &&& bytes == be_bytes(a.value)
            &&& 1 <= a.value <= max_value
            &&& a.value != target
        }),
{
    lemma_run_preserves(a, msgs.take(i));
}

/// Law: a truthful agent answers every query of its lifetime with the
/// target value, and nothing else.
pub proof fn lemma_truthful_agent(a: Agent, target: u16, max_value: u16, msgs: Seq<Seq<u8>>, i: int)
    requires
        a.wf(target, max_value),
        !a.liar,
        0 <= i < msgs.len(),
    ensures
        (response_at(a, msgs, i) matches Some(bytes) ==> bytes == be_bytes(target)),
{
    lemma_run_preserves(a, msgs.take(i));
}

/// Law: `"stop"` draws no response and terminates the service: the agent
/// is stopped afterward, and whatever messages arrive later, it stays
/// stopped and never answers again.
pub proof fn lemma_stop_terminates(a: Agent, later: Seq<Seq<u8>>, query: Seq<u8>)
    requires
        !a.stopped,
    ensures
        spec_response(a, stop_bytes()) is None,
        spec_step(a, stop_bytes()).stopped,
        spec_run(spec_step(a, stop_bytes()), later) == spec_step(a, stop_bytes()),
        spec_response(spec_run(spec_step(a, stop_bytes()), later), query) is None,
{
    assert(stop_bytes()[0] != talk_bytes()[0]);
    lemma_run_preserves(spec_step(a, stop_bytes()), later);
}

/// Map a uniform draw from `[1, max_value)` onto `[1, max_value]` with the
/// target left out, by skipping over the target.
pub fn liar_value(target: u16, max_value: u16, draw: u16) -> (v: u16)
    requires
        max_value >= 2,
        1 <= draw < max_value,
    ensures
        1 <= v <= max_value,
        v != target,
        draw < target ==> v == draw,
        draw >= target ==> v == draw + 1,
{
    if draw >= target {
        draw + 1
    } else {
        draw
    }
}

/// Relies on rand's `Rng::gen_range` over the half-open range `lo..hi`:
/// it returns a value uniformly drawn from `[lo, hi)`, and panics only on
/// an empty range, which the precondition rules out.
#[verifier::external_body]
fn draw_in_range(lo: u16, hi: u16) -> (r: u16)
    requires
        lo < hi,
    ensures
        lo <= r < hi,
{
    rand::Rng::gen_range(&mut rand::thread_rng(), lo..hi)
}

} // verus!
