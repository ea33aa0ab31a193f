//! Prefixes of the XOR name space.
//!
//! A prefix is a bit-length and a bit-pattern; it identifies the subtree of
//! the name space whose names start with that pattern, which is the set of
//! names a section is responsible for.

use vstd::prelude::*;
use crate::name_type::{XorName, XOR_NAME_LEN, bit_at};

verus! {

/// Total number of bits in a name.
pub const NAME_BITS: usize = 256;

proof fn lemma_set_bit(x: u8, k: u8, m: u8)
    requires
        k < 8,
        m < 8,
    ensures
        ((x | (1u8 << k)) >> m) & 1 == (if m == k {
            1u8
        } else {
            (x >> m) & 1
        }),
{
    assert(((x | (1u8 << k)) >> m) & 1 == (if m == k {
        1u8
    } else {
        (x >> m) & 1
    })) by (bit_vector)
        requires
            k < 8,
            m < 8,
    ;
}

proof fn lemma_clear_bit(x: u8, k: u8, m: u8)
    requires
        k < 8,
        m < 8,
    ensures
        ((x & !(1u8 << k)) >> m) & 1 == (if m == k {
            0u8
        } else {
            (x >> m) & 1
        }),
{
    assert(((x & !(1u8 << k)) >> m) & 1 == (if m == k {
        0u8
    } else {
        (x >> m) & 1
    })) by (bit_vector)
        requires
            k < 8,
            m < 8,
    ;
}

/// Returns `name` with bit `i` set to `val` and every other bit unchanged.
pub fn with_bit(name: &XorName, i: usize, val: bool) -> (r: XorName)
    requires
        i < 8 * XOR_NAME_LEN,
    ensures
        forall|j: int|
            0 <= j < 8 * XOR_NAME_LEN ==> #[trigger] bit_at(r@, j) == (if j == i {
                val
            } else {
                bit_at(name@, j)
            }),
{
    let byte_index = i / 8;
    let k: u8 = (7 - (i % 8)) as u8;
    let old_byte = name.bytes[byte_index];
    let new_byte: u8 = if val {
        old_byte | (1u8 << k)
    } else {
        old_byte & !(1u8 << k)
    };
    let mut bytes = name.bytes;
    bytes[byte_index] = new_byte;
    let r = XorName { bytes };
    proof {
        assert forall|j: int|
            0 <= j < 8 * XOR_NAME_LEN implies #[trigger] bit_at(r@, j) == (if j == i {
            val
        } else {
            bit_at(name@, j)
        }) by {
            let m: u8 = (7 - (j % 8)) as u8;
            assert(j == 8 * (j / 8) + (j % 8));
            assert(i == 8 * (i as int / 8) + (i as int % 8));
            if j / 8 == byte_index {
                assert(r@[j / 8] == new_byte);
                if val {
                    lemma_set_bit(old_byte, k, m);
                } else {
                    lemma_clear_bit(old_byte, k, m);
                }
                assert((m == k) == (j == i));
            } else {
                assert(r@[j / 8] == name@[j / 8]);
            }
        }
    }
    r
}

/// A prefix of the name space: the set of names whose first `bit_count` bits
/// equal the first `bit_count` bits of `name`.
#[derive(Clone, Copy, Hash, Debug)]
pub struct Prefix {
    /// Number of leading bits that are significant.
    pub bit_count: usize,
    /// The bit pattern; bits past `bit_count` are zero in a well-formed prefix.
    pub name: XorName,
}

impl Prefix {
    /// A prefix is well formed when its length fits the name space and every
    /// bit past its length is zero, so that equal prefixes are equal values.
    pub open spec fn wf(self) -> bool {
        self.bit_count <= NAME_BITS && forall|j: int|
            self.bit_count <= j < NAME_BITS ==> !bit_at(self.name@, j)
    }

    /// Whether `name` lies in the subtree this prefix identifies.
    pub open spec fn spec_matches(self, name: Seq<u8>) -> bool {
        forall|j: int| 0 <= j < self.bit_count ==> bit_at(name, j) == bit_at(self.name@, j)
    }

    /// The empty prefix, which matches the whole name space.
    pub fn empty() -> (r: Prefix)
        ensures
            r.wf(),
            r.bit_count == 0,
    {
        let name = XorName::zero();
        proof {
            assert forall|j: int| 0 <= j < NAME_BITS implies !bit_at(name@, j) by {
                let b = name@[j / 8];
                let m: u8 = (7 - (j % 8)) as u8;
                assert(b == 0);
                assert((0u8 >> m) & 1 == 0) by (bit_vector);
            }
        }
        Prefix { bit_count: 0, name }
    }

    /// The prefix one bit longer than this one, extended by `b`.
    pub fn pushed(&self, b: bool) -> (r: Prefix)
        requires
            self.wf(),
            self.bit_count < NAME_BITS,
    ensures
            r.wf(),
            r.bit_count == self.bit_count + 1,
            forall|j: int|
                0 <= j < self.bit_count ==> #[trigger] bit_at(r.name@, j) == bit_at(
                    self.name@,
                    j,
                ),
            bit_at(r.name@, self.bit_count as int) == b,
    {
        let name = with_bit(&self.name, self.bit_count, b);
        Prefix { bit_count: self.bit_count + 1, name }
    }

    /// The prefix of this prefix's parent: one bit shorter.
    pub fn popped(&self) -> (r: Prefix)
        requires
            self.wf(),
            self.bit_count >= 1,
        ensures
            r.wf(),
            r.bit_count == self.bit_count - 1,
            forall|j: int|
                0 <= j < self.bit_count - 1 ==> #[trigger] bit_at(r.name@, j) == bit_at(
                    self.name@,
                    j,
                ),
    {
        let name = with_bit(&self.name, self.bit_count - 1, false);
        Prefix { bit_count: self.bit_count - 1, name }
    }

    /// The sibling prefix: same length, last bit flipped.
    pub fn sibling(&self) -> (r: Prefix)
        requires
            self.wf(),
            self.bit_count >= 1,
        ensures
            r.wf(),
            r.bit_count == self.bit_count,
            forall|j: int|
                0 <= j < self.bit_count - 1 ==> #[trigger] bit_at(r.name@, j) == bit_at(
                    self.name@,
                    j,
                ),
            bit_at(r.name@, self.bit_count - 1) == !bit_at(self.name@, self.bit_count - 1),
    {
        let last = self.name.bit(self.bit_count - 1);
        let name = with_bit(&self.name, self.bit_count - 1, !last);
        Prefix { bit_count: self.bit_count, name }
    }

    /// Returns whether `name` lies under this prefix.
    pub fn matches(&self, name: &XorName) -> (r: bool)
        requires
            self.bit_count <= NAME_BITS,
        ensures
            r == self.spec_matches(name@),
    {
        let mut i: usize = 0;
        while i < self.bit_count
            invariant
                i <= self.bit_count,
                self.bit_count <= NAME_BITS,
                forall|j: int| 0 <= j < i ==> bit_at(name@, j) == bit_at(self.name@, j),
            decreases self.bit_count - i,
        {
            if name.bit(i) != self.name.bit(i) {
                return false;
            }
            i = i + 1;
        }
        true
    }

    /// The name at the midpoint of this prefix's subtree: the prefix's own
    /// pattern with the first free bit set.
    pub fn midpoint(&self) -> (r: XorName)
        requires
            self.wf(),
            self.bit_count < NAME_BITS,
        ensures
            forall|j: int|
                0 <= j < NAME_BITS ==> #[trigger] bit_at(r@, j) == (if j == self.bit_count {
                    true
                } else {
                    bit_at(self.name@, j)
                }),
    {
        with_bit(&self.name, self.bit_count, true)
    }
}

impl PartialEq for Prefix {
    fn eq(&self, other: &Prefix) -> (r: bool) {
        self.bit_count == other.bit_count && self.name == other.name
    }
}

impl Eq for Prefix {

}

impl vstd::std_specs::cmp::PartialEqSpecImpl for Prefix {
    open spec fn obeys_eq_spec() -> bool {
        true
    }

    open spec fn eq_spec(&self, other: &Prefix) -> bool {
        self.bit_count == other.bit_count && self.name@ == other.name@
    }
}

/// No name lies under both of two sibling prefixes: the name's bit at the
/// prefixes' last position would have to equal both a bit and its negation.
pub proof fn lemma_siblings_disjoint(p: Prefix, q: Prefix, name: Seq<u8>)
    requires
        p.bit_count == q.bit_count,
        p.bit_count >= 1,
        bit_at(p.name@, p.bit_count - 1) != bit_at(q.name@, q.bit_count - 1),
        p.spec_matches(name),
    ensures
        !q.spec_matches(name),
{
    assert(bit_at(name, p.bit_count - 1) == bit_at(p.name@, p.bit_count - 1));
}

} // verus!
