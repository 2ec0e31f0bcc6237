//! Random linear combinations of field-element sequences.
//!
//! A sequence is collapsed into one field element with the powers of a
//! shared random challenge: `s[0] + s[1]*r + s[2]*r^2 + ...`, computed in
//! Horner form.  Equal-content sequences under the same challenge always
//! combine to the same element, which is what the lookup argument relies
//! on.
use vstd::prelude::*;
use vstd::arithmetic::div_mod::*;
use crate::field::{p, Fe, fe_zero, fe_add, fe_mul, fe_from_u64};

verus! {

/// Values of a sequence of field elements.
pub open spec fn fe_vals(s: Seq<Fe>) -> Seq<nat> {
    s.map_values(|f: Fe| f.val())
}

/// Values of a byte sequence.
pub open spec fn byte_vals(s: Seq<u8>) -> Seq<nat> {
    s.map_values(|b: u8| b as nat)
}

/// The random linear combination of a value sequence under a challenge:
/// `s[0] + s[1]*r + s[2]*r^2 + ...`, reduced into the field.
pub open spec fn rlc_val(s: Seq<nat>, r: nat) -> nat
    decreases s.len(),
{
    if s.len() == 0 {
        0
    } else {
        (s[0] + r * rlc_val(s.skip(1), r)) % p()
    }
}

/// The random linear combination of a sequence of field elements.
pub fn rlc(values: &Vec<Fe>, r: &Fe) -> (res: Fe)
    requires
        forall|i: int| 0 <= i < values@.len() ==> (#[trigger] values@[i]).wf(),
        r.wf(),
    ensures
        res.wf(),
        res.val() == rlc_val(fe_vals(values@), r.val()),
{
    let mut acc = fe_zero();
    let mut i: usize = values.len();
    proof {
        assert(fe_vals(values@).skip(i as int) =~= Seq::<nat>::empty());
    }
    while i > 0
        invariant
            i <= values@.len(),
            forall|k: int| 0 <= k < values@.len() ==> (#[trigger] values@[k]).wf(),
            r.wf(),
            acc.wf(),
            acc.val() == rlc_val(fe_vals(values@).skip(i as int), r.val()),
        decreases i,
    {
        let m = fe_mul(&acc, r);
        let ghost prev = acc.val();
        acc = fe_add(&m, &values[i - 1]);
        i -= 1;
        proof {
            let s = fe_vals(values@);
            let v = values@[i as int].val();
            assert(s.skip(i as int)[0] == v);
            assert(s.skip(i as int).skip(1) =~= s.skip(i + 1));
            lemma_small_mod(v, p());
            lemma_add_mod_noop((prev * r.val()) as int, v as int, p() as int);
        }
    }
    proof {
        assert(fe_vals(values@).skip(0) =~= fe_vals(values@));
    }
    acc
}

/// The random linear combination of a byte string.
pub fn rlc_bytes(bytes: &Vec<u8>, r: &Fe) -> (res: Fe)
    requires
        r.wf(),
    ensures
        res.wf(),
        res.val() == rlc_val(byte_vals(bytes@), r.val()),
{
    let mut fes: Vec<Fe> = Vec::new();
    let mut i: usize = 0;
    while i < bytes.len()
        invariant
            i <= bytes@.len(),
            fes@.len() == i,
            forall|j: int| 0 <= j < i ==> (#[trigger] fes@[j]).wf() && fes@[j].val()
                == bytes@[j] as nat,
        decreases bytes@.len() - i,
    {
        fes.push(fe_from_u64(bytes[i] as u64));
        i += 1;
    }
    let res = rlc(&fes, r);
    proof {
        assert(fe_vals(fes@) =~= byte_vals(bytes@));
    }
    res
}

/// Determinism of the random linear combination: two sequences with the
/// same element values under the same challenge combine to the same field
/// element.  This equality on variable-length content is what the lookup
/// argument depends on; that distinct contents collide only with
/// negligible probability is a property of the challenge's distribution,
/// not of this function.
pub proof fn lemma_rlc_deterministic(a: Seq<Fe>, b: Seq<Fe>, r1: Fe, r2: Fe)
    requires
        a.len() == b.len(),
        forall|i: int| 0 <= i < a.len() ==> a[i].val() == b[i].val(),
        r1.val() == r2.val(),
    ensures
        rlc_val(fe_vals(a), r1.val()) == rlc_val(fe_vals(b), r2.val()),
{
    assert(fe_vals(a) =~= fe_vals(b));
}

} // verus!
