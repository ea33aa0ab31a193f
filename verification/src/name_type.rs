//! The XOR-metric name space.
//!
//! A name is a fixed-width bit string; the distance between two names is the
//! numeric value of their bitwise XOR. Routing decisions order names by this
//! distance to a target.

use vstd::prelude::*;

verus! {

/// Width of a name in bytes.
pub const XOR_NAME_LEN: usize = 32;

/// A name in the XOR address space.
#[derive(Clone, Copy, Hash, Debug)]
pub struct XorName {
    /// Big-endian bit pattern of the name.
    pub bytes: [u8; XOR_NAME_LEN],
}

impl View for XorName {
    type V = Seq<u8>;

    open spec fn view(&self) -> Seq<u8> {
        self.bytes@
    }
}

impl PartialEq for XorName {
    fn eq(&self, other: &XorName) -> (r: bool) {
        let mut i: usize = 0;
        while i < XOR_NAME_LEN
            invariant
                i <= XOR_NAME_LEN,
                forall|j: int| 0 <= j < i ==> self@[j] == other@[j],
            decreases XOR_NAME_LEN - i,
        {
            if self.bytes[i] != other.bytes[i] {
                return false;
            }
            i = i + 1;
        }
        proof {
            assert(self.bytes@.len() == XOR_NAME_LEN);
            assert(other.bytes@.len() == XOR_NAME_LEN);
            assert forall|j: int| 0 <= j < XOR_NAME_LEN implies self.bytes@[j] == other.bytes@[j] by {
                assert(self@[j] == other@[j]);
            }
            assert(self.bytes@ =~= other.bytes@);
        }
        true
    }
}

impl Eq for XorName {

}

impl vstd::std_specs::cmp::PartialEqSpecImpl for XorName {
    open spec fn obeys_eq_spec() -> bool {
        true
    }

    open spec fn eq_spec(&self, other: &XorName) -> bool {
        self.bytes@ == other.bytes@
    }
}

/// Powers of 256, the radix of a byte string read as a number.
pub open spec fn pow256(n: nat) -> nat
    decreases n,
{
    if n == 0 {
        1
    } else {
        256 * pow256((n - 1) as nat)
    }
}

/// The numeric value of a big-endian byte string.
pub open spec fn nat_of(s: Seq<u8>) -> nat
    decreases s.len(),
{
    if s.len() == 0 {
        0
    } else {
        (s[0] * pow256((s.len() - 1) as nat) + nat_of(s.drop_first())) as nat
    }
}

/// Bytewise XOR of two equal-length byte strings.
pub open spec fn xor_seq(a: Seq<u8>, b: Seq<u8>) -> Seq<u8> {
    Seq::new(a.len(), |i: int| a[i] ^ b[i])
}

/// The XOR metric: the numeric value of `a ^ b`.
pub open spec fn distance(a: Seq<u8>, b: Seq<u8>) -> nat {
    nat_of(xor_seq(a, b))
}

/// Bit `i` of a big-endian byte string, most significant bit first.
pub open spec fn bit_at(s: Seq<u8>, i: int) -> bool {
    (s[i / 8] >> (7 - (i % 8)) as u8) & 1 == 1
}

pub proof fn lemma_pow256_pos(n: nat)
    ensures
        pow256(n) >= 1,
    decreases n,
{
    if n > 0 {
        lemma_pow256_pos((n - 1) as nat);
    }
}

/// A byte string's value is below the power of 256 at its length.
pub proof fn lemma_nat_of_bound(s: Seq<u8>)
    ensures
        nat_of(s) < pow256(s.len() as nat),
    decreases s.len(),
{
    if s.len() == 0 {
    } else {
        let p = pow256((s.len() - 1) as nat);
        lemma_nat_of_bound(s.drop_first());
        lemma_pow256_pos((s.len() - 1) as nat);
        assert(s[0] <= 255);
        assert(s[0] * p <= 255 * p) by (nonlinear_arith)
            requires
                s[0] <= 255,
                p >= 1,
        ;
        assert(255 * p + p == 256 * p);
    }
}

/// If two equal-length byte strings share a proper prefix and differ in the
/// next byte, the one with the smaller byte is numerically smaller.
pub proof fn lemma_lex_lt(s: Seq<u8>, t: Seq<u8>, i: int)
    requires
        s.len() == t.len(),
        0 <= i < s.len(),
        forall|j: int| 0 <= j < i ==> s[j] == t[j],
        s[i] < t[i],
    ensures
        nat_of(s) < nat_of(t),
    decreases i,
{
    let p = pow256((s.len() - 1) as nat);
    if i == 0 {
        lemma_nat_of_bound(s.drop_first());
        lemma_nat_of_bound(t.drop_first());
        lemma_pow256_pos((s.len() - 1) as nat);
        assert((s[0] + 1) * p <= t[0] * p) by (nonlinear_arith)
            requires
                s[0] + 1 <= t[0],
                p >= 1,
        ;
        assert(s[0] * p + p == (s[0] + 1) * p) by (nonlinear_arith);
    } else {
        lemma_lex_lt(s.drop_first(), t.drop_first(), i - 1);
        assert(s[0] == t[0]);
    }
}

/// Equal byte strings have equal values (stated for the prefix-compare loop).
pub proof fn lemma_pointwise_eq(s: Seq<u8>, t: Seq<u8>)
    requires
        s.len() == t.len(),
        forall|j: int| 0 <= j < s.len() ==> s[j] == t[j],
    ensures
        nat_of(s) == nat_of(t),
{
    assert(s =~= t);
}

/// Equal-length byte strings with equal numeric values are equal.
pub proof fn lemma_nat_of_injective(s: Seq<u8>, t: Seq<u8>)
    requires
        s.len() == t.len(),
        nat_of(s) == nat_of(t),
    ensures
        s == t,
    decreases s.len(),
{
    if s.len() == 0 {
        assert(s =~= t);
    } else if s[0] == t[0] {
        lemma_nat_of_injective(s.drop_first(), t.drop_first());
        assert forall|j: int| 0 <= j < s.len() implies s[j] == t[j] by {
            if j > 0 {
                assert(s.drop_first()[j - 1] == s[j]);
                assert(t.drop_first()[j - 1] == t[j]);
            }
        }
        assert(s =~= t);
    } else if s[0] < t[0] {
        lemma_lex_lt(s, t, 0);
    } else {
        lemma_lex_lt(t, s, 0);
    }
}

/// Two names at the same XOR distance from a target are the same name, so
/// distinct names always have distinct distances: the XOR metric admits
/// no ties.
pub proof fn lemma_distance_injective(a: Seq<u8>, b: Seq<u8>, d: Seq<u8>)
    requires
        a.len() == d.len(),
        b.len() == d.len(),
        distance(a, d) == distance(b, d),
    ensures
        a == b,
{
    lemma_nat_of_injective(xor_seq(a, d), xor_seq(b, d));
    assert forall|i: int| 0 <= i < a.len() implies a[i] == b[i] by {
        assert(xor_seq(a, d)[i] == xor_seq(b, d)[i]);
        let x = a[i];
        let y = b[i];
        let z = d[i];
        assert((x ^ z == y ^ z) ==> x == y) by (bit_vector);
    }
    assert(a =~= b);
}

impl XorName {
    /// The all-zero name.
    pub fn zero() -> (r: XorName)
        ensures
            forall|i: int| 0 <= i < XOR_NAME_LEN ==> r@[i] == 0u8,
            r@.len() == XOR_NAME_LEN,
    {
        XorName { bytes: [0u8; 32] }
    }

    /// Bit `i` of the name, most significant first.
    pub fn bit(&self, i: usize) -> (r: bool)
        requires
            i < 8 * XOR_NAME_LEN,
        ensures
            r == bit_at(self@, i as int),
    {
        let byte = self.bytes[i / 8];
        let shift: u8 = (7 - (i % 8)) as u8;
        ((byte >> shift) & 1) == 1
    }
}

/// Returns whether `lhs` is strictly closer to `target` than `rhs` is,
/// in the XOR metric.
pub fn closer_to_target(lhs: &XorName, rhs: &XorName, target: &XorName) -> (r: bool)
    ensures
        r == (distance(lhs@, target@) < distance(rhs@, target@)),
{
    let dl = Ghost(xor_seq(lhs@, target@));
    let dr = Ghost(xor_seq(rhs@, target@));
    let mut i: usize = 0;
    while i < XOR_NAME_LEN
        invariant
            i <= XOR_NAME_LEN,
            dl@ == xor_seq(lhs@, target@),
            dr@ == xor_seq(rhs@, target@),
            forall|j: int| 0 <= j < i ==> dl@[j] == dr@[j],
        decreases XOR_NAME_LEN - i,
    {
        let a = lhs.bytes[i] ^ target.bytes[i];
        let b = rhs.bytes[i] ^ target.bytes[i];
        if a != b {
            proof {
                if a < b {
                    lemma_lex_lt(dl@, dr@, i as int);
                } else {
                    lemma_lex_lt(dr@, dl@, i as int);
                }
            }
            return a < b;
        }
        i = i + 1;
    }
    proof {
        lemma_pointwise_eq(dl@, dr@);
    }
    false
}

/// Returns whether `lhs` is closer to `target` than `rhs`, or exactly as
/// close: the non-strict XOR-distance comparison.
pub fn closer_to_target_or_equal(lhs: &XorName, rhs: &XorName, target: &XorName) -> (r: bool)
    ensures
        r == (distance(lhs@, target@) <= distance(rhs@, target@)),
{
    !closer_to_target(rhs, lhs, target)
}

} // verus!
