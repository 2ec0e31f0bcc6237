//! Field elements held as canonical little-endian bytes.
//!
//! A field element is an integer below the field modulus, stored as its
//! 32 canonical little-endian bytes.  The modular arithmetic itself comes
//! from the proving backend's field type behind trusted wrappers; the
//! byte codecs, constants and equality are verified here.
use vstd::prelude::*;
use vstd::arithmetic::power2::*;
use vstd::arithmetic::div_mod::*;
use halo2_proofs::pasta::Fp;
use halo2_proofs::pasta::group::ff::PrimeField;

verus! {

/// The modulus of the proving field (the base field of the Pallas curve),
/// written from its four 64-bit limbs:
/// 0x40000000000000000000000000000000224698fc094cf91b992d30ed00000001.
pub open spec fn p() -> nat {
    0x992d30ed00000001 + 0x224698fc094cf91b * 0x10000000000000000
        + 0x4000000000000000 * 0x10000000000000000 * 0x10000000000000000
        * 0x10000000000000000
}

/// Value of a little-endian byte sequence.
pub open spec fn le_val(s: Seq<u8>) -> nat
    decreases s.len(),
{
    if s.len() == 0 {
        0
    } else {
        s[0] as nat + 256 * le_val(s.skip(1))
    }
}

/// Value of a big-endian byte sequence.
pub open spec fn be_val(s: Seq<u8>) -> nat {
    le_val(s.reverse())
}

/// A field element: the 32 canonical little-endian bytes of a value below `p()`.
#[derive(Debug)]
pub struct Fe {
    pub bytes: Vec<u8>,
}

impl Fe {
    /// Well-formedness: a canonical encoding of a value of the field.
    pub open spec fn wf(self) -> bool {
        self.bytes@.len() == 32 && le_val(self.bytes@) < p()
    }

    /// The integer the element stands for.
    pub open spec fn val(self) -> nat {
        le_val(self.bytes@)
    }

    /// Decides well-formedness at run time, for callers that hold an
    /// element they did not get from this module's constructors.
    pub fn is_wf(&self) -> (r: bool)
        ensures
            r == self.wf(),
    {
        self.bytes.len() == 32 && fe_from_le_bytes(&self.bytes).is_some()
    }

    /// An element with the same bytes.
    pub fn dup(&self) -> (r: Fe)
        ensures
            r.bytes@ == self.bytes@,
            r.val() == self.val(),
            self.wf() ==> r.wf(),
    {
        Fe { bytes: copy_bytes(&self.bytes) }
    }
}

/// A byte sequence appended by one byte gains that byte at the top position.
pub proof fn lemma_le_val_push(s: Seq<u8>, b: u8)
    ensures
        le_val(s.push(b)) == le_val(s) + (b as nat) * pow2(8 * s.len()),
    decreases s.len(),
{
    if s.len() == 0 {
        assert(s.push(b).skip(1) =~= Seq::<u8>::empty());
        assert(s.push(b)[0] == b);
        lemma2_to64();
        assert(le_val(s.push(b)) == b as nat + 256 * le_val(s.push(b).skip(1)));
    } else {
        assert(s.push(b).skip(1) =~= s.skip(1).push(b));
        assert(s.push(b)[0] == s[0]);
        lemma_le_val_push(s.skip(1), b);
        lemma_pow2_adds(8, 8 * (s.len() - 1) as nat);
        lemma2_to64();
        let t = le_val(s.skip(1));
        let q = pow2(8 * (s.len() - 1) as nat);
        assert(le_val(s.push(b)) == s[0] as nat + 256 * le_val(s.skip(1).push(b)));
        assert(le_val(s.skip(1).push(b)) == t + (b as nat) * q);
        assert(256 * (t + (b as nat) * q) == 256 * t + (b as nat) * (256 * q))
            by (nonlinear_arith);
        assert(pow2(8 * s.len()) == 256 * q);
    }
}

/// A little-endian byte value is below the power of two of its bit width.
pub proof fn lemma_le_val_bound(s: Seq<u8>)
    ensures
        le_val(s) < pow2(8 * s.len()),
    decreases s.len(),
{
    if s.len() == 0 {
        lemma2_to64();
    } else {
        lemma_le_val_bound(s.skip(1));
        lemma_pow2_adds(8, 8 * (s.len() - 1) as nat);
        lemma2_to64();
        let t = le_val(s.skip(1));
        let q = pow2(8 * (s.len() - 1) as nat);
        assert(t + 1 <= q ==> 256 * t + 256 <= 256 * q) by (nonlinear_arith);
    }
}

/// Splitting a little-endian byte sequence splits its value.
pub proof fn lemma_le_val_split(s: Seq<u8>, k: int)
    requires
        0 <= k <= s.len(),
    ensures
        le_val(s) == le_val(s.take(k)) + pow2((8 * k) as nat) * le_val(s.skip(k)),
    decreases k,
{
    if k == 0 {
        assert(s.take(0) =~= Seq::<u8>::empty());
        assert(s.skip(0) =~= s);
        lemma2_to64();
    } else {
        lemma_le_val_split(s.skip(1), k - 1);
        assert(s.take(k)[0] == s[0]);
        assert(s.take(k).skip(1) =~= s.skip(1).take(k - 1));
        assert(s.skip(k) =~= s.skip(1).skip(k - 1));
        lemma_pow2_adds(8, (8 * (k - 1)) as nat);
        lemma2_to64();
        let a = le_val(s.skip(1).take(k - 1));
        let t = le_val(s.skip(1).skip(k - 1));
        let q = pow2((8 * (k - 1)) as nat);
        assert(le_val(s) == s[0] as nat + 256 * le_val(s.skip(1)));
        assert(le_val(s.skip(1)) == a + q * t);
        assert(le_val(s.take(k)) == s[0] as nat + 256 * a);
        assert(256 * (a + q * t) == 256 * a + (256 * q) * t) by (nonlinear_arith);
        assert(pow2((8 * k) as nat) == 256 * q);
    }
}

/// Byte-for-byte copy.
fn copy_bytes(s: &Vec<u8>) -> (r: Vec<u8>)
    ensures
        r@ == s@,
{
    let mut out: Vec<u8> = Vec::new();
    let mut i: usize = 0;
    while i < s.len()
        invariant
            i <= s@.len(),
            out@ == s@.take(i as int),
        decreases s@.len() - i,
    {
        out.push(s[i]);
        proof {
            assert(out@ =~= s@.take(i + 1));
        }
        i += 1;
    }
    proof {
        assert(s@.take(s@.len() as int) =~= s@);
    }
    out
}

/// Byte-for-byte reversal.
pub fn reverse_bytes(s: &Vec<u8>) -> (r: Vec<u8>)
    ensures
        r@ == s@.reverse(),
{
    let n = s.len();
    let mut out: Vec<u8> = Vec::new();
    let mut i: usize = 0;
    while i < n
        invariant
            n == s@.len(),
            i <= n,
            out@.len() == i,
            forall|j: int| 0 <= j < i ==> out@[j] == s@[n - 1 - j],
        decreases n - i,
    {
        out.push(s[n - 1 - i]);
        i += 1;
    }
    proof {
        assert(out@ =~= s@.reverse());
    }
    out
}

/// The field element standing for a 64-bit integer.
pub fn fe_from_u64(x: u64) -> (r: Fe)
    ensures
        r.wf(),
        r.val() == x,
{
    let mut bytes: Vec<u8> = Vec::new();
    let mut y: u64 = x;
    let mut i: usize = 0;
    proof {
        lemma2_to64();
        assert(le_val(bytes@) == 0);
        assert(pow2((8 * i) as nat) * y == 1 * y);
    }
    while i < 8
        invariant
            i <= 8,
            bytes@.len() == i,
            le_val(bytes@) + pow2((8 * i) as nat) * y == x,
        decreases 8 - i,
    {
        let ghost prev_bytes = bytes@;
        let ghost prev_y = y;
        let ghost prev_i = i as int;
        let b: u8 = (y % 256) as u8;
        bytes.push(b);
        y = y / 256;
        i += 1;
        proof {
            let q = pow2((8 * prev_i) as nat);
            lemma_le_val_push(prev_bytes, b);
            lemma_pow2_adds((8 * prev_i) as nat, 8);
            lemma2_to64();
            assert(pow2((8 * i) as nat) == q * 256);
            assert(prev_y == 256 * (prev_y / 256) + (prev_y % 256)) by {
                lemma_fundamental_div_mod(prev_y as int, 256);
            }
            assert(le_val(bytes@) == le_val(prev_bytes) + (b as nat) * q);
            assert(q * (prev_y % 256) + (q * 256) * (prev_y / 256) == q * prev_y)
                by (nonlinear_arith)
                requires prev_y == 256 * (prev_y / 256) + (prev_y % 256);
        }
    }
    proof {
        lemma2_to64();
        if y >= 1 {
            assert(pow2(64) * y >= pow2(64) * 1) by (nonlinear_arith)
                requires y >= 1, pow2(64) >= 0;
        }
    }
    let mut j: usize = 8;
    while j < 32
        invariant
            8 <= j <= 32,
            bytes@.len() == j,
            le_val(bytes@) == x,
        decreases 32 - j,
    {
        proof {
            lemma_le_val_push(bytes@, 0);
        }
        bytes.push(0);
        j += 1;
    }
    proof {
        lemma2_to64();
    }
    Fe { bytes }
}

/// The additive identity.
pub fn fe_zero() -> (r: Fe)
    ensures
        r.wf(),
        r.val() == 0,
{
    fe_from_u64(0)
}

/// The multiplicative identity.
pub fn fe_one() -> (r: Fe)
    ensures
        r.wf(),
        r.val() == 1,
{
    fe_from_u64(1)
}

/// Equality of field elements, decided on the canonical bytes.
pub fn fe_eq(a: &Fe, b: &Fe) -> (r: bool)
    ensures
        r == (a.bytes@ == b.bytes@),
{
    if a.bytes.len() != b.bytes.len() {
        return false;
    }
    let mut i: usize = 0;
    while i < a.bytes.len()
        invariant
            i <= a.bytes@.len(),
            a.bytes@.len() == b.bytes@.len(),
            forall|j: int| 0 <= j < i ==> a.bytes@[j] == b.bytes@[j],
        decreases a.bytes@.len() - i,
    {
        if a.bytes[i] != b.bytes[i] {
            return false;
        }
        i += 1;
    }
    proof {
        assert(a.bytes@ =~= b.bytes@);
    }
    true
}

/// Relies on the Pallas base field of `halo2_proofs::pasta`: `from_repr`
/// reads canonical little-endian bytes, `+` is addition modulo the field
/// modulus, and `to_repr` writes the canonical bytes of the result.
#[verifier::external_body]
pub fn fe_add(a: &Fe, b: &Fe) -> (r: Fe)
    requires
        a.wf(),
        b.wf(),
    ensures
        r.wf(),
        r.val() == (a.val() + b.val()) % p(),
{
    let xa: [u8; 32] = a.bytes.as_slice().try_into().unwrap();
    let xb: [u8; 32] = b.bytes.as_slice().try_into().unwrap();
    let fa = Fp::from_repr(xa).unwrap();
    let fb = Fp::from_repr(xb).unwrap();
    Fe { bytes: (fa + fb).to_repr().to_vec() }
}

/// Relies on the Pallas base field of `halo2_proofs::pasta`: `from_repr`
/// reads canonical little-endian bytes, `*` is multiplication modulo the
/// field modulus, and `to_repr` writes the canonical bytes of the result.
#[verifier::external_body]
pub fn fe_mul(a: &Fe, b: &Fe) -> (r: Fe)
    requires
        a.wf(),
        b.wf(),
    ensures
        r.wf(),
        r.val() == (a.val() * b.val()) % p(),
{
    let xa: [u8; 32] = a.bytes.as_slice().try_into().unwrap();
    let xb: [u8; 32] = b.bytes.as_slice().try_into().unwrap();
    let fa = Fp::from_repr(xa).unwrap();
    let fb = Fp::from_repr(xb).unwrap();
    Fe { bytes: (fa * fb).to_repr().to_vec() }
}

/// Relies on `PrimeField::from_repr` for the Pallas base field: it accepts
/// exactly the canonical little-endian encodings, that is the 32-byte
/// strings whose value is below the modulus.
#[verifier::external_body]
fn fe_from_le_bytes(b: &Vec<u8>) -> (r: Option<Fe>)
    requires
        b@.len() == 32,
    ensures
        r is Some <==> le_val(b@) < p(),
        r matches Some(x) ==> x.bytes@ == b@,
{
    let arr: [u8; 32] = b.as_slice().try_into().unwrap();
    if bool::from(Fp::from_repr(arr).is_some()) {
        Some(Fe { bytes: b.clone() })
    } else {
        None
    }
}

/// Reads a big-endian byte string as a field element; rejects values at or
/// above the modulus rather than reducing them.
pub fn from_bytes_be(bytes: &Vec<u8>) -> (r: Option<Fe>)
    requires
        bytes@.len() == 32,
    ensures
        r is Some <==> be_val(bytes@) < p(),
        r matches Some(x) ==> x.wf() && x.val() == be_val(bytes@) && x.bytes@
            == bytes@.reverse(),
{
    let le = reverse_bytes(bytes);
    fe_from_le_bytes(&le)
}

/// Writes the 32 canonical big-endian bytes of a field element.
pub fn to_bytes_be(x: &Fe) -> (r: Vec<u8>)
    requires
        x.wf(),
    ensures
        r@ == x.bytes@.reverse(),
        r@.len() == 32,
        be_val(r@) == x.val(),
        be_val(r@) < p(),
{
    let out = reverse_bytes(&x.bytes);
    proof {
        assert(x.bytes@.reverse().reverse() =~= x.bytes@);
    }
    out
}

/// Byte-conversion round trip: the big-endian bytes written for an element
/// are accepted when read back and reproduce the element exactly, so
/// reading a byte string, writing it out and reading it again changes
/// nothing.
pub proof fn lemma_bytes_round_trip(x: Fe)
    requires
        x.wf(),
    ensures
        be_val(x.bytes@.reverse()) == x.val(),
        be_val(x.bytes@.reverse()) < p(),
        x.bytes@.reverse().reverse() == x.bytes@,
{
    assert(x.bytes@.reverse().reverse() =~= x.bytes@);
}

/// The low 64 bits of a field element.
pub fn fe_low_u64(x: &Fe) -> (r: u64)
    requires
        x.wf(),
    ensures
        r == x.val() % pow2(64),
{
    let mut acc: u64 = 0;
    let mut i: usize = 8;
    proof {
        lemma2_to64();
        assert(x.bytes@.subrange(8, 8) =~= Seq::<u8>::empty());
    }
    while i > 0
        invariant
            i <= 8,
            x.wf(),
            acc == le_val(x.bytes@.subrange(i as int, 8)),
            acc < pow2((8 * (8 - i)) as nat),
        decreases i,
    {
        let b: u8 = x.bytes[i - 1];
        proof {
            let s = x.bytes@.subrange(i - 1, 8);
            assert(s[0] == x.bytes@[i - 1]);
            assert(s.skip(1) =~= x.bytes@.subrange(i as int, 8));
            assert(le_val(s) == (b as nat) + 256 * le_val(s.skip(1)));
            lemma_pow2_adds((8 * (8 - i)) as nat, 8);
            lemma2_to64();
            let q = pow2((8 * (8 - i)) as nat);
            assert(acc + 1 <= q ==> 256 * acc + 256 <= 256 * q) by (nonlinear_arith);
            assert(pow2((8 * (8 - (i - 1))) as nat) == 256 * q);
            if 8 * (8 - (i - 1)) < 64 {
                lemma_pow2_strictly_increases((8 * (8 - (i - 1))) as nat, 64);
            }
            assert(256 * acc + 256 <= pow2(64));
        }
        acc = (b as u64) + acc * 256;
        i -= 1;
    }
    proof {
        assert(x.bytes@.subrange(0, 8) =~= x.bytes@.take(8));
        lemma_le_val_split(x.bytes@, 8);
        lemma_le_val_bound(x.bytes@.take(8));
        lemma2_to64();
        lemma_mod_multiples_vanish(
            le_val(x.bytes@.skip(8)) as int,
            le_val(x.bytes@.take(8)) as int,
            pow2(64) as int,
        );
        lemma_small_mod(le_val(x.bytes@.take(8)), pow2(64));
    }
    acc
}

} // verus!
