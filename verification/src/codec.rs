//! The binary / alternate-base digit codec for logic-in-field arithmetic.
//!
//! A 64-bit word is decomposed into its binary digits, and the digits are
//! re-read in base 9 even though each stays 0 or 1.  On such encodings one
//! field addition or multiplication simulates a bitwise operation across
//! all 64 positions at once, because the wider base leaves room for the
//! per-digit sums.
use vstd::prelude::*;
use vstd::arithmetic::power2::*;
use vstd::arithmetic::div_mod::*;
use crate::field::{p, Fe, fe_zero, fe_add, fe_mul, fe_from_u64};

verus! {

/// The first `n` binary digits of `x`, lowest first.
pub open spec fn bit_digits(x: nat, n: nat) -> Seq<u8> {
    Seq::new(n, |i: int| (((x / pow2(i as nat)) % 2) as u8))
}

/// Value of a digit sequence read in base 2.
pub open spec fn bits_val(d: Seq<u8>) -> nat
    decreases d.len(),
{
    if d.len() == 0 {
        0
    } else {
        d[0] as nat + 2 * bits_val(d.skip(1))
    }
}

/// Value of a digit sequence read in base 9.
pub open spec fn base9_val(d: Seq<u8>) -> nat
    decreases d.len(),
{
    if d.len() == 0 {
        0
    } else {
        d[0] as nat + 9 * base9_val(d.skip(1))
    }
}

/// Every digit is 0 or 1.
pub open spec fn binary_digits(d: Seq<u8>) -> bool {
    forall|i: int| 0 <= i < d.len() ==> #[trigger] d[i] <= 1
}

/// Reading back the first `n` binary digits of `x` yields `x` modulo 2^n.
pub proof fn lemma_bits_val_of_bit_digits(x: nat, n: nat)
    ensures
        bits_val(bit_digits(x, n)) == x % pow2(n),
    decreases n,
{
    lemma2_to64();
    lemma_fundamental_div_mod_converse(x as int, 1, x as int, 0);
    if n == 0 {
    } else {
        lemma_bits_val_of_bit_digits(x / 2, (n - 1) as nat);
        let d = bit_digits(x, n);
        assert forall|j: int| 0 <= j < n - 1 implies d.skip(1)[j] == bit_digits(
            x / 2,
            (n - 1) as nat,
        )[j] by {
            lemma_pow2_pos(j as nat);
            lemma_div_denominator(x as int, 2, pow2(j as nat) as int);
            lemma_pow2_adds(1, j as nat);
        }
        assert(d.skip(1) =~= bit_digits(x / 2, (n - 1) as nat));
        assert(d[0] == (x % 2) as u8);
        lemma_pow2_pos((n - 1) as nat);
        lemma_mod_breakdown(x as int, 2, pow2((n - 1) as nat) as int);
        lemma_pow2_adds(1, (n - 1) as nat);
    }
}

/// Alternate-base round trip: for every 64-bit word, decomposing into the
/// alternate-base digits and reading the digits back in base 2 yields the
/// word again.
pub proof fn lemma_alt_base_round_trip(x: u64)
    ensures
        bits_val(bit_digits(x as nat, 64)) == x,
{
    lemma_bits_val_of_bit_digits(x as nat, 64);
    lemma2_to64();
    lemma_small_mod(x as nat, pow2(64));
}

/// Binary decomposition of a 64-bit word into 64 alternate-base digits,
/// one digit per bit, lowest first.
pub fn to_alt_base(x: u64) -> (d: Vec<u8>)
    ensures
        d@.len() == 64,
        binary_digits(d@),
        d@ == bit_digits(x as nat, 64),
        bits_val(d@) == x,
{
    let mut digits: Vec<u8> = Vec::new();
    let mut y: u64 = x;
    let mut i: usize = 0;
    proof {
        lemma2_to64();
    }
    while i < 64
        invariant
            i <= 64,
            digits@.len() == i,
            y as nat == x as nat / pow2(i as nat),
            forall|j: int| 0 <= j < i ==> digits@[j] == (((x as nat / pow2(j as nat)) % 2) as u8),
        decreases 64 - i,
    {
        let b: u8 = (y % 2) as u8;
        digits.push(b);
        let ghost prev_i = i as int;
        y = y / 2;
        i += 1;
        proof {
            lemma_pow2_pos(prev_i as nat);
            lemma_div_denominator(x as int, pow2(prev_i as nat) as int, 2);
            lemma_pow2_adds(prev_i as nat, 1);
            lemma2_to64();
        }
    }
    proof {
        assert(digits@ =~= bit_digits(x as nat, 64));
        lemma_alt_base_round_trip(x);
    }
    digits
}

/// Reads a 64-digit alternate-base word with binary digits back as the
/// 64-bit integer whose bits they are.  Digit strings with entries other
/// than 0 and 1 are never produced by `to_alt_base` and lie outside this
/// codec's domain.
pub fn from_alt_base(d: &Vec<u8>) -> (x: u64)
    requires
        d@.len() == 64,
        binary_digits(d@),
    ensures
        x as nat == bits_val(d@),
{
    let mut acc: u64 = 0;
    let mut i: usize = 64;
    proof {
        lemma2_to64();
        assert(d@.skip(64) =~= Seq::<u8>::empty());
    }
    while i > 0
        invariant
            i <= 64,
            d@.len() == 64,
            binary_digits(d@),
            acc as nat == bits_val(d@.skip(i as int)),
            acc < pow2((64 - i) as nat),
        decreases i,
    {
        let b: u8 = d[i - 1];
        proof {
            let s = d@.skip(i - 1);
            assert(s[0] == d@[i - 1]);
            assert(s.skip(1) =~= d@.skip(i as int));
            assert(bits_val(s) == (b as nat) + 2 * bits_val(s.skip(1)));
            let q = pow2((64 - i) as nat);
            assert(acc + 1 <= q ==> 2 * acc + 2 <= 2 * q) by (nonlinear_arith);
            lemma_pow2_adds((64 - i) as nat, 1);
            lemma2_to64();
            if 64 - (i - 1) < 64 {
                lemma_pow2_strictly_increases((64 - (i - 1)) as nat, 64);
            }
            assert(d@[i - 1] <= 1);
        }
        acc = (b as u64) + acc * 2;
        i -= 1;
    }
    proof {
        assert(d@.skip(0) =~= d@);
    }
    acc
}

/// The field element of an alternate-base digit string: the digits read
/// in base 9, reduced into the field.
pub fn digits_to_fe(d: &Vec<u8>) -> (r: Fe)
    ensures
        r.wf(),
        r.val() == base9_val(d@) % p(),
{
    let nine = fe_from_u64(9);
    let mut acc = fe_zero();
    let mut i: usize = d.len();
    proof {
        assert(d@.skip(i as int) =~= Seq::<u8>::empty());
        lemma_small_mod(0, p());
    }
    while i > 0
        invariant
            i <= d@.len(),
            nine.wf(),
            nine.val() == 9,
            acc.wf(),
            acc.val() == base9_val(d@.skip(i as int)) % p(),
        decreases i,
    {
        let m = fe_mul(&acc, &nine);
        let ghost prev = base9_val(d@.skip(i as int));
        let v = fe_from_u64(d[i - 1] as u64);
        acc = fe_add(&m, &v);
        i -= 1;
        proof {
            let s = d@.skip(i as int);
            assert(s[0] == d@[i as int]);
            assert(s.skip(1) =~= d@.skip(i + 1));
            assert(base9_val(s) == (d@[i as int] as nat) + 9 * base9_val(s.skip(1)));
            lemma_mul_mod_noop_left(prev as int, 9, p() as int);
            lemma_small_mod(d@[i as int] as nat, p());
            lemma_add_mod_noop((prev * 9) as int, d@[i as int] as nat as int, p() as int);
        }
    }
    proof {
        assert(d@.skip(0) =~= d@);
    }
    acc
}

} // verus!
