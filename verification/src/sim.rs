//! The deterministic simulation that the session advances and replays.
//!
//! The state is one 64-bit counter per player slot. A step folds each
//! player's input byte into that player's counter with rotate-and-xor,
//! so a step is a pure function of the previous state and the tick's
//! input vector, free of overflow. Replay is the fold of steps over a
//! sequence of input vectors; rollback correctness rests on replay
//! being a function of the inputs alone.

use vstd::prelude::*;

verus! {

/// One player's counter after folding in one input byte.
pub open spec fn spec_step_cell(c: u64, bits: u8) -> u64 {
    ((c << 1) | (c >> 63)) ^ (bits as u64)
}

/// The whole state after one tick with input vector `inputs`.
pub open spec fn spec_step(state: Seq<u64>, inputs: Seq<u8>) -> Seq<u64>
    recommends
        inputs.len() == state.len(),
{
    Seq::new(state.len(), |i: int| spec_step_cell(state[i], inputs[i]))
}

/// The state reached from `init` by stepping through `inputs`,
/// one input vector per tick.
pub open spec fn spec_replay(init: Seq<u64>, inputs: Seq<Seq<u8>>) -> Seq<u64>
    decreases inputs.len(),
{
    if inputs.len() == 0 {
        init
    } else {
        spec_step(spec_replay(init, inputs.drop_last()), inputs.last())
    }
}

/// Replay unrolls one step at a time from the right.
pub proof fn lemma_replay_snoc(init: Seq<u64>, inputs: Seq<Seq<u8>>, v: Seq<u8>)
    ensures
        spec_replay(init, inputs.push(v)) == spec_step(spec_replay(init, inputs), v),
{
    assert(inputs.push(v).drop_last() =~= inputs);
    assert(inputs.push(v).last() == v);
}

/// Replay never changes the number of players.
pub proof fn lemma_replay_len(init: Seq<u64>, inputs: Seq<Seq<u8>>)
    ensures
        spec_replay(init, inputs).len() == init.len(),
    decreases inputs.len(),
{
    if inputs.len() > 0 {
        lemma_replay_len(init, inputs.drop_last());
    }
}

/// One player's counter after folding in one input byte.
pub fn step_cell(c: u64, bits: u8) -> (r: u64)
    ensures
        r == spec_step_cell(c, bits),
{
    ((c << 1) | (c >> 63)) ^ (bits as u64)
}

/// The whole state after one tick with input vector `inputs`.
pub fn step(state: &Vec<u64>, inputs: &Vec<u8>) -> (r: Vec<u64>)
    requires
        inputs@.len() == state@.len(),
    ensures
        r@ == spec_step(state@, inputs@),
{
    let mut out: Vec<u64> = Vec::new();
    let mut i: usize = 0;
    while i < state.len()
        invariant
            i <= state@.len(),
            inputs@.len() == state@.len(),
            out@.len() == i as int,
            forall|j: int| 0 <= j < i ==> out@[j] == spec_step_cell(state@[j], inputs@[j]),
        decreases state@.len() - i,
    {
        out.push(step_cell(state[i], inputs[i]));
        i = i + 1;
    }
    proof {
        assert(out@ =~= spec_step(state@, inputs@));
    }
    out
}

} // verus!
