//! Source and destination location descriptors.
//!
//! A message travels between locations: a single node, or a section of
//! the name space. Delivery-group computation asks whether a node's name
//! belongs to a destination, which these descriptors answer.

use vstd::prelude::*;
use crate::name_type::XorName;
use crate::prefix::{Prefix, NAME_BITS};

verus! {

/// Where a message comes from.
#[derive(Clone, Copy, Debug)]
pub enum SrcLocation {
    /// A single node, by name.
    Node(XorName),
    /// A whole section, by its prefix.
    Section(Prefix),
}

/// Where a message is bound.
#[derive(Clone, Copy, Debug)]
pub enum DstLocation {
    /// A single node, by name.
    Node(XorName),
    /// The section responsible for a name.
    Section(XorName),
    /// The directly connected peer, whoever it is.
    Direct,
}

impl SrcLocation {
    /// Whether `name` can legitimately speak for this source.
    pub open spec fn spec_contains(self, name: Seq<u8>, section: Prefix) -> bool {
        match self {
            SrcLocation::Node(n) => n@ == name,
            SrcLocation::Section(p) => p.spec_matches(name),
        }
    }

    /// Returns whether `name` can speak for this source: it is the named
    /// node, or any node of the named section.
    pub fn contains(&self, name: &XorName) -> (r: bool)
        requires
            self matches SrcLocation::Section(p) ==> p.bit_count <= NAME_BITS,
        ensures
            r == (match *self {
                SrcLocation::Node(n) => n@ == name@,
                SrcLocation::Section(p) => p.spec_matches(name@),
            }),
    {
        match self {
            SrcLocation::Node(n) => n == name,
            SrcLocation::Section(p) => p.matches(name),
        }
    }
}

impl DstLocation {
    /// Returns whether a node holding `name` in the section `prefix` is
    /// among this destination's recipients: the named node itself, or any
    /// member of the section responsible for the destination name.
    pub fn is_for(&self, name: &XorName, prefix: &Prefix) -> (r: bool)
        requires
            prefix.bit_count <= NAME_BITS,
        ensures
            r == (match *self {
                DstLocation::Node(n) => n@ == name@,
                DstLocation::Section(target) => prefix.spec_matches(target@),
                DstLocation::Direct => true,
            }),
    {
        match self {
            DstLocation::Node(n) => n == name,
            DstLocation::Section(target) => prefix.matches(target),
            DstLocation::Direct => true,
        }
    }
}

} // verus!
