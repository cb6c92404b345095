//! The round controller: the state machine that drives the game.
//!
//! Each play takes one round's raw answers, tallies them, asks the
//! selector for the next guess, records it as tried, and compares it to
//! the target: a hit wins the game, a miss returns to awaiting the next
//! command, and an external stop moves straight to shutdown. No value is
//! ever proposed twice: the tried set grows by exactly the proposed value
//! each round and never holds a duplicate.

use vstd::prelude::*;

use crate::select::{beats, select, Ratio};
use crate::tally::{lemma_valid_total_le_len, tally_responses, valid_total, votes_for};

verus! {

#[derive(Clone, Copy, Debug, PartialEq, Eq)]
pub enum Phase {
    AwaitingCommand,
    GameWon,
    Stopped,
}

/// The whole game's mutable state: the known target, the values proposed
/// so far, the round counter, and the phase of the controller.
pub struct GameState {
    pub target: u16,
    pub already_tried: Vec<u16>,
    pub rounds: u32,
    pub phase: Phase,
}

impl GameState {
    /// No value is ever proposed twice.
    pub open spec fn wf(self) -> bool {
        self.already_tried@.no_duplicates()
    }

    pub fn new(target: u16) -> (s: GameState)
        ensures
            s.wf(),
            s.target == target,
            s.already_tried@ == Seq::<u16>::empty(),
            s.rounds == 0,
            s.phase is AwaitingCommand,
    {
        GameState {
            target,
            already_tried: Vec::new(),
            rounds: 0,
            phase: Phase::AwaitingCommand,
        }
    }

    /// Play one round on the raw answers of this round's fan-out: tally
    /// the valid answers, propose the best untried reported value, record
    /// it, and win exactly when it is the target. Returns the proposed
    /// value, or `None` when every reported value was already tried.
    pub fn play_round(&mut self, responses: &Vec<Vec<u8>>, ratio: &Ratio) -> (r: Option<u16>)
        requires
            old(self).wf(),
            old(self).phase is AwaitingCommand,
            old(self).rounds < u32::MAX,
            responses@.len() <= 65535,
            ratio.wf(),
        ensures
            final(self).wf(),
            final(self).target == old(self).target,
            final(self).rounds == old(self).rounds + 1,
            r is Some <==> exists|v: u16|
                votes_for(responses.deep_view(), v) > 0 && !old(self).already_tried@.contains(v),
            r matches Some(c) ==> {
                &&& votes_for(responses.deep_view(), c) > 0
                &&& !old(self).already_tried@.contains(c)
                &&& final(self).already_tried@ == old(self).already_tried@.push(c)
                &&& forall|v: u16|
                    votes_for(responses.deep_view(), v) > 0 && !old(self).already_tried@.contains(
                        v,
                    ) ==> beats(
                        *ratio,
                        valid_total(responses.deep_view()),
                        votes_for(responses.deep_view(), c),
                        c,
                        votes_for(responses.deep_view(), v),
                        v,
                    )
            },
            r is None ==> final(self).already_tried@ == old(self).already_tried@,
            final(self).phase is GameWon <==> r == Some(old(self).target),
            r != Some(old(self).target) ==> final(self).phase is AwaitingCommand,
    {
        let t = tally_responses(responses);
        proof {
            lemma_valid_total_le_len(responses.deep_view());
            assert(responses.deep_view().len() == responses@.len());
        }
        let r = select(&t, t.total, ratio, &self.already_tried);
        self.rounds = self.rounds + 1;
        match r {
            Some(c) => {
                proof {
                    let tried0 = self.already_tried@;
                    assert forall|i: int, j: int|
                        0 <= i < j < tried0.push(c).len() implies tried0.push(c)[i] != tried0.push(
                        c,
                    )[j] by {
                        if j == tried0.len() {
                            if tried0[i] == c {
                                assert(tried0.contains(c));
                            }
                        }
                    }
                }
                self.already_tried.push(c);
                if c == self.target {
                    self.phase = Phase::GameWon;
                } else {
                    self.phase = Phase::AwaitingCommand;
                }
                Some(c)
            },
            None => {
                self.phase = Phase::AwaitingCommand;
                None
            },
        }
    }

    /// An external stop: the controller proceeds directly to shutdown,
    /// changing nothing else.
    pub fn stop(&mut self)
        ensures
            final(self).phase is Stopped,
            final(self).target == old(self).target,
            final(self).already_tried@ == old(self).already_tried@,
            final(self).rounds == old(self).rounds,
            old(self).wf() ==> final(self).wf(),
    {
        self.phase = Phase::Stopped;
    }
}

} // verus!
