//! Speculative decoding with a draft head.
//!
//! A round drafts some tokens, has the target model check them all in one pass, and
//! keeps those that pass. The models and the probabilities are the caller's; a round
//! says what to ask them for and what follows from the answers.

use vstd::prelude::*;

verus! {

/// What came out of one round.
#[derive(Debug, Clone)]
pub struct Eagle3StepStats {
    /// How many drafted tokens passed.
    pub accepted: usize,
    /// How many tokens the round produced.
    pub produced: usize,
    pub draft_tokens: Vec<u32>,
    pub final_tokens: Vec<u32>,
}

/// Why a round fails.
#[derive(Clone, Copy, Debug, PartialEq, Eq, Structural)]
pub enum SpecError {
    /// The target model checked fewer tokens than were drafted.
    TooFewPositions { got: usize, expected: usize },
}

/// What the draft head is asked for next.
#[derive(Clone, Copy, Debug, PartialEq, Eq, Structural)]
pub struct DraftRequest {
    /// The token to go on from.
    pub token: u32,
    /// Whether to start from the target's hidden states, not from the last output.
    pub first: bool,
    /// The position of the draft.
    pub rope_offset: usize,
}

/// The drafted token that is judged next.
#[derive(Clone, Copy, Debug, PartialEq, Eq, Structural)]
pub struct Judgement {
    pub index: usize,
    pub draft_token: u32,
    /// Which of the checked positions has the logits to judge by; none for those of the
    /// token that the round went on from.
    pub checked_row: Option<usize>,
}

/// A speculative decoder: how many tokens it drafts, its random numbers, and its totals.
pub struct Eagle3SpecDecoder {
    pub draft_k: usize,
    pub rng_state: u64,
    pub total_accepted: usize,
    pub total_steps: usize,
    pub total_produced: usize,
}

/// The state of the generator behind a state.
pub open spec fn shifted(x: u64) -> u64 {
    let a = x ^ (x << 13u64);
    let b = a ^ (a >> 7u64);
    b ^ (b << 17u64)
}

/// A generator that is not at zero never gets there, and zero it would not leave.
pub proof fn law_generator_never_stops(x: u64)
    ensures
        x != 0 ==> shifted(x) != 0,
        shifted(0) == 0,
{
    assert(x != 0 ==> ({
        let a = x ^ (x << 13u64);
        let b = a ^ (a >> 7u64);
        b ^ (b << 17u64)
    }) != 0) by (bit_vector);
    assert(({
        let a = 0u64 ^ (0u64 << 13u64);
        let b = a ^ (a >> 7u64);
        b ^ (b << 17u64)
    }) == 0) by (bit_vector);
}

impl Eagle3SpecDecoder {
    /// A decoder that has run no round. A seed of 0 is replaced.
    pub fn new(draft_k: usize, seed: u64) -> (decoder: Self)
        ensures
            decoder.draft_k == draft_k,
            decoder.rng_state == (if seed == 0 {
                0xdead_beef
            } else {
                seed
            }),
            decoder.rng_state != 0,
            decoder.total_accepted == 0,
            decoder.total_steps == 0,
            decoder.total_produced == 0,
    {
        Eagle3SpecDecoder {
            draft_k,
            rng_state: if seed == 0 {
                0xdead_beef
            } else {
                seed
            },
            total_accepted: 0,
            total_steps: 0,
            total_produced: 0,
        }
    }

    /// The next random number: 24 bits, to be read as a fraction of 2 to the 24.
    pub fn next_bits(&mut self) -> (bits: u32)
        ensures
            *final(self) == (Eagle3SpecDecoder {
                rng_state: shifted(old(self).rng_state),
                ..*old(self)
            }),
            bits == shifted(old(self).rng_state) as int / 0x100_0000_0000,
            bits < 0x100_0000,
    {
        let mut x: u64 = self.rng_state;
        x = x ^ (x << 13u64);
        x = x ^ (x >> 7u64);
        x = x ^ (x << 17u64);
        self.rng_state = x;
        assert(x >> 40u64 == x / 0x100_0000_0000 && x >> 40u64 < 0x100_0000) by (bit_vector);
        (x >> 40u64) as u32
    }

    /// Starts a round behind `start_pos` cached tokens.
    pub fn begin(&self, current_token: u32, start_pos: usize) -> (round: SpecRound)
        requires
            start_pos + self.draft_k + 1 <= usize::MAX,
        ensures
            round.wf(),
            round.k == self.draft_k,
            round.current_token == current_token,
            round.start_pos == start_pos,
            round.draft_tokens@ == Seq::<u32>::empty(),
            round.accepted == 0,
            round.extra is None,
    {
        SpecRound {
            k: self.draft_k,
            current_token,
            start_pos,
            draft_tokens: Vec::new(),
            accepted: 0,
            extra: None,
        }
    }

    /// Ends a round: counts it, and says what came out of it.
    pub fn finish(&mut self, round: SpecRound) -> (stats: Eagle3StepStats)
        requires
            round.wf(),
            round.extra is Some,
            old(self).total_accepted + round.accepted <= usize::MAX,
            old(self).total_steps < usize::MAX,
            old(self).total_produced + round.accepted + 1 <= usize::MAX,
        ensures
            stats.accepted == round.accepted,
            stats.produced == round.accepted + 1,
            stats.draft_tokens == round.draft_tokens,
            stats.final_tokens@ == round.final_tokens(),
            *final(self) == (Eagle3SpecDecoder {
                total_accepted: (old(self).total_accepted + round.accepted) as usize,
                total_steps: (old(self).total_steps + 1) as usize,
                total_produced: (old(self).total_produced + round.accepted + 1) as usize,
                ..*old(self)
            }),
    {
        let accepted: usize = round.accepted;
        let mut final_tokens: Vec<u32> = Vec::new();
        let mut i: usize = 0;
        while i < accepted
            invariant
                i <= accepted == round.accepted,
                round.wf(),
                final_tokens@ == round.draft_tokens@.take(i as int),
            decreases accepted - i,
        {
            final_tokens.push(round.draft_tokens[i]);
            i = i + 1;
            proof {
                assert(final_tokens@ =~= round.draft_tokens@.take(i as int));
            }
        }
        match round.extra {
            Some(token) => {
                final_tokens.push(token);
            },
            None => {},
        }
        let produced: usize = final_tokens.len();
        self.total_accepted = self.total_accepted + accepted;
        self.total_steps = self.total_steps + 1;
        self.total_produced = self.total_produced + produced;
        Eagle3StepStats { accepted, produced, draft_tokens: round.draft_tokens, final_tokens }
    }
}

/// One round.
pub struct SpecRound {
    /// How many tokens are drafted.
    pub k: usize,
    /// The token that the round goes on from.
    pub current_token: u32,
    /// How many tokens the target had cached before the round.
    pub start_pos: usize,
    pub draft_tokens: Vec<u32>,
    /// How many drafted tokens have passed.
    pub accepted: usize,
    /// The token behind those that passed: sampled anew in place of the first one that
    /// failed, or behind the last one.
    pub extra: Option<u32>,
}

impl SpecRound {
    /// No more is drafted than asked for, nothing passes that was not drafted, and
    /// judging starts when all is drafted.
    pub open spec fn wf(self) -> bool {
        &&& self.start_pos + self.k + 1 <= usize::MAX
        &&& self.draft_tokens@.len() <= self.k
        &&& self.accepted <= self.draft_tokens@.len()
        &&& self.accepted > 0 || self.extra is Some ==> self.draft_tokens@.len() == self.k
    }

    /// What the round produced so far.
    pub open spec fn final_tokens(self) -> Seq<u32> {
        match self.extra {
            Some(token) => self.draft_tokens@.take(self.accepted as int).push(token),
            None => self.draft_tokens@.take(self.accepted as int),
        }
    }

    /// What the draft head is asked for next, until all is drafted.
    pub fn next_draft(&self) -> (request: Option<DraftRequest>)
        requires
            self.wf(),
        ensures
            request == (if self.draft_tokens@.len() < self.k {
                Some(
                    DraftRequest {
                        token: if self.draft_tokens@.len() == 0 {
                            self.current_token
                        } else {
                            self.draft_tokens@.last()
                        },
                        first: self.draft_tokens@.len() == 0,
                        rope_offset: (self.start_pos + 1 + self.draft_tokens@.len()) as usize,
                    },
                )
            } else {
                None
            }),
    {
        let drafted: usize = self.draft_tokens.len();
        if drafted >= self.k {
            return None;
        }
        let token: u32 = if drafted == 0 {
            self.current_token
        } else {
            self.draft_tokens[drafted - 1]
        };
        Some(
            DraftRequest {
                token,
                first: drafted == 0,
                rope_offset: self.start_pos + 1 + drafted,
            },
        )
    }

    /// Takes a drafted token.
    pub fn drafted(&mut self, token: u32)
        requires
            old(self).wf(),
            old(self).draft_tokens@.len() < old(self).k,
        ensures
            final(self).wf(),
            final(self).draft_tokens@ == old(self).draft_tokens@.push(token),
            *final(self) == (SpecRound { draft_tokens: final(self).draft_tokens, ..*old(self) }),
    {
        self.draft_tokens.push(token);
    }

    /// Whether the target model checked every drafted token.
    pub fn check_positions(&self, positions: usize) -> (checked: Result<(), SpecError>)
        ensures
            checked == (if positions < self.k {
                Err::<(), SpecError>(
                    SpecError::TooFewPositions { got: positions, expected: self.k },
                )
            } else {
                Ok(())
            }),
    {
        if positions < self.k {
            Err(SpecError::TooFewPositions { got: positions, expected: self.k })
        } else {
            Ok(())
        }
    }

    /// The drafted token that is judged next: the first one that has not passed, until
    /// one fails or all have passed.
    pub fn next_judgement(&self) -> (judgement: Option<Judgement>)
        requires
            self.wf(),
            self.draft_tokens@.len() == self.k,
        ensures
            judgement == (if self.extra is None && self.accepted < self.k {
                Some(
                    Judgement {
                        index: self.accepted,
                        draft_token: self.draft_tokens@[self.accepted as int],
                        checked_row: if self.accepted == 0 {
                            None
                        } else {
                            Some((self.accepted - 1) as usize)
                        },
                    },
                )
            } else {
                None
            }),
    {
        match self.extra {
            Some(_) => None,
            None => {
                if self.accepted >= self.k {
                    return None;
                }
                let index: usize = self.accepted;
                Some(
                    Judgement {
                        index,
                        draft_token: self.draft_tokens[index],
                        checked_row: if index == 0 {
                            None
                        } else {
                            Some(index - 1)
                        },
                    },
                )
            },
        }
    }

    /// The token that was judged passes.
    pub fn accept(&mut self)
        requires
            old(self).wf(),
            old(self).draft_tokens@.len() == old(self).k,
            old(self).accepted < old(self).k,
            old(self).extra is None,
        ensures
            final(self).wf(),
            *final(self) == (SpecRound {
                accepted: (old(self).accepted + 1) as usize,
                ..*old(self)
            }),
    {
        self.accepted = self.accepted + 1;
    }

    /// Ends the judging with a token that is not a draft: sampled anew where the token
    /// that was judged fails, or behind the last one where all have passed.
    pub fn close(&mut self, token: u32)
        requires
            old(self).wf(),
            old(self).draft_tokens@.len() == old(self).k,
            old(self).extra is None,
        ensures
            final(self).wf(),
            *final(self) == (SpecRound { extra: Some(token), ..*old(self) }),
    {
        self.extra = Some(token);
    }

    /// Which of the checked positions has the logits for the token behind the last one,
    /// where all have passed.
    pub fn bonus_row(&self) -> (row: Option<usize>)
        requires
            self.wf(),
        ensures
            row == (if self.extra is None && 0 < self.k && self.accepted == self.k {
                Some((self.k - 1) as usize)
            } else {
                None
            }),
    {
        match self.extra {
            Some(_) => None,
            None => if self.k > 0 && self.accepted == self.k {
                Some(self.k - 1)
            } else {
                None
            },
        }
    }

    /// How many tokens the target keeps cached: those before the round, the one that it
    /// went on from, and those that passed.
    pub fn target_keep(&self) -> (n: usize)
        requires
            self.wf(),
        ensures
            n == self.start_pos + 1 + self.accepted,
    {
        self.start_pos + 1 + self.accepted
    }

    /// How many tokens the draft head keeps: those that passed.
    pub fn eagle_keep(&self) -> (n: usize)
        ensures
            n == self.accepted,
    {
        self.accepted
    }
}

/// A finished round produces at least one token and at most one more than it drafted;
/// all but the last are the drafts that passed, in order.
pub proof fn law_round_produces_one_more_than_passed(round: SpecRound)
    requires
        round.wf(),
        round.extra is Some,
    ensures
        1 <= round.final_tokens().len() <= round.k + 1,
        round.final_tokens().len() == round.accepted + 1,
        round.final_tokens().drop_last() == round.draft_tokens@.take(round.accepted as int),
        round.final_tokens().last() == round.extra->Some_0,
{
    assert(round.final_tokens().drop_last() =~= round.draft_tokens@.take(round.accepted as int));
}

/// Rolling back keeps the caches in step with the tokens: what the target keeps is what
/// it had, the token that the round went on from, and every produced token but the last,
/// which it has not seen yet. It never keeps more than it has cached.
pub proof fn law_rollback_keeps_in_step(round: SpecRound)
    requires
        round.wf(),
        round.extra is Some,
    ensures
        round.start_pos + 1 + round.accepted == round.start_pos + round.final_tokens().len(),
        round.start_pos + 1 + round.accepted <= round.start_pos + 1 + round.k,
        round.accepted <= round.k,
{
}

/// The generator's next state is the old one mixed with shifted copies of it: the bits
/// moved up by 13, down by 7, up by 17, and by what these make behind each other.
pub proof fn law_generator_mixes_shifted_copies(x: u64)
    ensures
        shifted(x) == x ^ (x << 13u64) ^ (x >> 7u64) ^ ((x << 13u64) >> 7u64) ^ (x << 17u64) ^ ((x
            << 13u64) << 17u64) ^ ((x >> 7u64) << 17u64) ^ (((x << 13u64) >> 7u64) << 17u64),
{
    assert(({
        let a = x ^ (x << 13u64);
        let b = a ^ (a >> 7u64);
        b ^ (b << 17u64)
    }) == x ^ (x << 13u64) ^ (x >> 7u64) ^ ((x << 13u64) >> 7u64) ^ (x << 17u64) ^ ((x << 13u64)
        << 17u64) ^ ((x >> 7u64) << 17u64) ^ (((x << 13u64) >> 7u64) << 17u64)) by (bit_vector);
}

/// Two states never lead to the same next one, so the generator forgets nothing.
pub proof fn law_generator_is_one_to_one(x: u64, y: u64)
    ensures
        shifted(x ^ y) == shifted(x) ^ shifted(y),
        shifted(x) == shifted(y) ==> x == y,
{
    assert(({
        let a = (x ^ y) ^ ((x ^ y) << 13u64);
        let b = a ^ (a >> 7u64);
        b ^ (b << 17u64)
    }) == (({
        let a = x ^ (x << 13u64);
        let b = a ^ (a >> 7u64);
        b ^ (b << 17u64)
    }) ^ ({
        let a = y ^ (y << 13u64);
        let b = a ^ (a >> 7u64);
        b ^ (b << 17u64)
    }))) by (bit_vector);
    law_generator_never_stops(x ^ y);
    let p = shifted(x);
    let q = shifted(y);
    assert(p == q ==> p ^ q == 0) by (bit_vector);
    assert(x ^ y == 0 ==> x == y) by (bit_vector);
}

/// A round's tokens are the drafts that passed, in order, and behind them the token of
/// the target model once it is known.
pub proof fn law_final_tokens_start_with_the_drafts(round: SpecRound, i: int)
    requires
        round.accepted <= round.draft_tokens@.len(),
    ensures
        round.extra is None ==> round.final_tokens().len() == round.accepted,
        round.extra is Some ==> round.final_tokens().len() == round.accepted + 1
            && round.final_tokens()[round.accepted as int] == round.extra->Some_0,
        0 <= i < round.accepted ==> round.final_tokens()[i] == round.draft_tokens@[i],
{
}

} // verus!
