//! The absorb step of the sponge permutation, on alternate-base lanes.
//!
//! The 25 state lanes already carry their words in the alternate base.
//! For each lane with a present next-input value the step converts the
//! low 64 bits of the input to the alternate base, scales the encoding by
//! the protocol constant `A4` and adds it onto the lane with ordinary
//! field arithmetic; lanes without an input pass through unchanged.
use vstd::prelude::*;
use vstd::arithmetic::power2::*;
use vstd::arithmetic::div_mod::*;
use crate::field::{p, Fe, fe_add, fe_mul, fe_from_u64, fe_low_u64};
use crate::codec::{base9_val, bit_digits, digits_to_fe, to_alt_base};

verus! {

/// Number of lanes of the permutation state.
pub const STATE_LANES: usize = 25;

/// Largest number of next-input lanes one absorb step takes.
pub const NEXT_INPUTS_LANES: usize = 17;

/// Scaling constant of the absorb combinator.  A protocol constant, not a
/// tunable: it keeps every per-digit sum within the range the later
/// decomposition step can invert.
pub const A4: u64 = 2;

/// Whether one lane of the next input is well formed.
pub open spec fn lane_input_wf(o: Option<Fe>) -> bool {
    match o {
        Some(f) => f.wf(),
        None => true,
    }
}

/// Value of one lane of the next input; 0 where no input is present.
pub open spec fn lane_val(o: Option<Fe>) -> nat {
    match o {
        Some(f) => f.val(),
        None => 0,
    }
}

/// The updated value of one lane: the alternate-base form of the low 64
/// bits of the input, scaled by `A4` and added onto the lane in the field.
pub open spec fn absorb_lane_val(prev: nat, inp: nat) -> nat {
    (prev + base9_val(bit_digits(inp % pow2(64), 64)) * (A4 as nat)) % p()
}

/// Merges the next input lanes into the permutation state: lanes with a
/// present input are updated by the add-then-scale combinator, and lanes
/// with no input remain unchanged.
pub fn apply_absorb(state: &Vec<Fe>, next_input: &Vec<Option<Fe>>) -> (out: Vec<Fe>)
    requires
        state@.len() == STATE_LANES,
        forall|i: int| 0 <= i < state@.len() ==> (#[trigger] state@[i]).wf(),
        next_input@.len() <= NEXT_INPUTS_LANES,
        forall|i: int| 0 <= i < next_input@.len() ==> lane_input_wf(#[trigger] next_input@[i]),
    ensures
        out@.len() == state@.len(),
        forall|i: int| 0 <= i < out@.len() ==> (#[trigger] out@[i]).wf(),
        forall|i: int|
            0 <= i < next_input@.len() && next_input@[i] is Some ==> (#[trigger] out@[i]).val()
                == absorb_lane_val(state@[i].val(), lane_val(next_input@[i])),
        forall|i: int|
            0 <= i < state@.len() && (i >= next_input@.len() || next_input@[i] is None) ==> (
            #[trigger] out@[i]).bytes@ == state@[i].bytes@,
{
    let a4 = fe_from_u64(A4);
    let mut out: Vec<Fe> = Vec::new();
    let mut i: usize = 0;
    while i < state.len()
        invariant
            i <= state@.len(),
            state@.len() == STATE_LANES,
            forall|k: int| 0 <= k < state@.len() ==> (#[trigger] state@[k]).wf(),
            forall|k: int| 0 <= k < next_input@.len() ==> lane_input_wf(#[trigger] next_input@[k]),
            next_input@.len() <= NEXT_INPUTS_LANES,
            a4.wf(),
            a4.val() == A4,
            out@.len() == i,
            forall|k: int| 0 <= k < i ==> (#[trigger] out@[k]).wf(),
            forall|k: int|
                0 <= k < i && k < next_input@.len() && next_input@[k] is Some ==> (
                #[trigger] out@[k]).val() == absorb_lane_val(state@[k].val(), lane_val(
                    next_input@[k],
                )),
            forall|k: int|
                0 <= k < i && (k >= next_input@.len() || next_input@[k] is None) ==> (
                #[trigger] out@[k]).bytes@ == state@[k].bytes@,
        decreases state@.len() - i,
    {
        if i < next_input.len() {
            match &next_input[i] {
                Some(f) => {
                    let low: u64 = fe_low_u64(f);
                    let d = to_alt_base(low);
                    let dfe = digits_to_fe(&d);
                    let scaled = fe_mul(&dfe, &a4);
                    let lane = fe_add(&state[i], &scaled);
                    proof {
                        let prev = state@[i as int].val();
                        let bb = base9_val(bit_digits(f.val() % pow2(64), 64));
                        lemma_mul_mod_noop_left(bb as int, A4 as int, p() as int);
                        lemma_add_mod_noop_right(prev as int, (bb * A4) as int, p() as int);
                    }
                    out.push(lane);
                },
                None => {
                    out.push(state[i].dup());
                },
            }
        } else {
            out.push(state[i].dup());
        }
        i += 1;
    }
    out
}

} // verus!
