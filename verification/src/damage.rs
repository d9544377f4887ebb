//! The damage vocabulary shared by the style pass and the damage pass.
//!
//! A [`Damage`] value is a set over four flags. The named values are nested by
//! severity, so that a more severe one contains every milder one:
//!
//! ```text
//! reconstruct  >=  rebuild_box_tree  >=  recollect_box_tree_children  >=  relayout
//! ```
//!
//! `relayout` is the only flag that speaks of geometry alone; the other three
//! are structural: they say that some cached box is no longer valid.

use vstd::prelude::*;

verus! {

/// What work a node, and possibly its parent, still needs after a style change.
#[derive(Clone, Copy, Debug, PartialEq, Eq, Structural)]
pub struct Damage {
    /// Geometry must be recomputed; identity and structure may be untouched.
    pub relayout: bool,
    /// The set and order of the node's child boxes must be recomputed.
    pub recollect_children: bool,
    /// The node's own box is invalid.
    pub rebuild_box: bool,
    /// The whole subtree, this node included, is rebuilt from nothing.
    pub reconstruct: bool,
}

impl Damage {
    /// No damage at all.
    pub open spec fn spec_empty() -> Damage {
        Damage { relayout: false, recollect_children: false, rebuild_box: false, reconstruct: false }
    }

    /// Geometry-only damage.
    pub open spec fn spec_relayout() -> Damage {
        Damage { relayout: true, recollect_children: false, rebuild_box: false, reconstruct: false }
    }

    /// The child boxes must be collected again; implies a relayout.
    pub open spec fn spec_recollect_box_tree_children() -> Damage {
        Damage { relayout: true, recollect_children: true, rebuild_box: false, reconstruct: false }
    }

    /// The node's box must be rebuilt; implies recollecting and a relayout.
    pub open spec fn spec_rebuild_box_tree() -> Damage {
        Damage { relayout: true, recollect_children: true, rebuild_box: true, reconstruct: false }
    }

    /// Everything is rebuilt: all four flags.
    pub open spec fn spec_reconstruct() -> Damage {
        Damage { relayout: true, recollect_children: true, rebuild_box: true, reconstruct: true }
    }

    /// Flags set in `self` or in `other`.
    pub open spec fn spec_union(self, other: Damage) -> Damage {
        Damage {
            relayout: self.relayout || other.relayout,
            recollect_children: self.recollect_children || other.recollect_children,
            rebuild_box: self.rebuild_box || other.rebuild_box,
            reconstruct: self.reconstruct || other.reconstruct,
        }
    }

    /// Flags set in both `self` and `other`.
    pub open spec fn spec_intersection(self, other: Damage) -> Damage {
        Damage {
            relayout: self.relayout && other.relayout,
            recollect_children: self.recollect_children && other.recollect_children,
            rebuild_box: self.rebuild_box && other.rebuild_box,
            reconstruct: self.reconstruct && other.reconstruct,
        }
    }

    /// Every flag of `other` is set in `self`.
    pub open spec fn spec_contains(self, other: Damage) -> bool {
        &&& other.relayout ==> self.relayout
        &&& other.recollect_children ==> self.recollect_children
        &&& other.rebuild_box ==> self.rebuild_box
        &&& other.reconstruct ==> self.reconstruct
    }

    /// Some flag is set in both.
    pub open spec fn spec_intersects(self, other: Damage) -> bool {
        self.spec_intersection(other) != Damage::spec_empty()
    }

    /// No flag is set.
    pub open spec fn spec_is_empty(self) -> bool {
        self == Damage::spec_empty()
    }

    /// Some structural flag is set.
    pub open spec fn spec_has_box_damage(self) -> bool {
        self.recollect_children || self.rebuild_box || self.reconstruct
    }

    /// `self` without its structural flags: what is left is geometry alone.
    pub open spec fn spec_truncated(self) -> Damage {
        Damage {
            relayout: self.relayout,
            recollect_children: false,
            rebuild_box: false,
            reconstruct: false,
        }
    }

    /// The flags are nested as the named values are: each structural flag
    /// comes with every milder one.
    pub open spec fn is_nested(self) -> bool {
        &&& self.reconstruct ==> self.rebuild_box
        &&& self.rebuild_box ==> self.recollect_children
        &&& self.recollect_children ==> self.relayout
    }

    #[verifier::when_used_as_spec(spec_empty)]
    pub fn empty() -> (d: Damage)
        ensures
            d == Damage::spec_empty(),
    {
        Damage { relayout: false, recollect_children: false, rebuild_box: false, reconstruct: false }
    }

    #[verifier::when_used_as_spec(spec_relayout)]
    pub fn relayout() -> (d: Damage)
        ensures
            d == Damage::spec_relayout(),
    {
        Damage { relayout: true, recollect_children: false, rebuild_box: false, reconstruct: false }
    }

    #[verifier::when_used_as_spec(spec_recollect_box_tree_children)]
    pub fn recollect_box_tree_children() -> (d: Damage)
        ensures
            d == Damage::spec_recollect_box_tree_children(),
    {
        Damage { relayout: true, recollect_children: true, rebuild_box: false, reconstruct: false }
    }

    #[verifier::when_used_as_spec(spec_rebuild_box_tree)]
    pub fn rebuild_box_tree() -> (d: Damage)
        ensures
            d == Damage::spec_rebuild_box_tree(),
    {
        Damage { relayout: true, recollect_children: true, rebuild_box: true, reconstruct: false }
    }

    #[verifier::when_used_as_spec(spec_reconstruct)]
    pub fn reconstruct() -> (d: Damage)
        ensures
            d == Damage::spec_reconstruct(),
    {
        Damage { relayout: true, recollect_children: true, rebuild_box: true, reconstruct: true }
    }

    #[verifier::when_used_as_spec(spec_union)]
    pub fn union(self, other: Damage) -> (d: Damage)
        ensures
            d == self.spec_union(other),
    {
        Damage {
            relayout: self.relayout || other.relayout,
            recollect_children: self.recollect_children || other.recollect_children,
            rebuild_box: self.rebuild_box || other.rebuild_box,
            reconstruct: self.reconstruct || other.reconstruct,
        }
    }

    #[verifier::when_used_as_spec(spec_intersection)]
    pub fn intersection(self, other: Damage) -> (d: Damage)
        ensures
            d == self.spec_intersection(other),
    {
        Damage {
            relayout: self.relayout && other.relayout,
            recollect_children: self.recollect_children && other.recollect_children,
            rebuild_box: self.rebuild_box && other.rebuild_box,
            reconstruct: self.reconstruct && other.reconstruct,
        }
    }

    #[verifier::when_used_as_spec(spec_contains)]
    pub fn contains(self, other: Damage) -> (b: bool)
        ensures
            b == self.spec_contains(other),
    {
        (!other.relayout || self.relayout) && (!other.recollect_children
            || self.recollect_children) && (!other.rebuild_box || self.rebuild_box) && (
        !other.reconstruct || self.reconstruct)
    }

    #[verifier::when_used_as_spec(spec_intersects)]
    pub fn intersects(self, other: Damage) -> (b: bool)
        ensures
            b == self.spec_intersects(other),
    {
        (self.relayout && other.relayout) || (self.recollect_children && other.recollect_children)
            || (self.rebuild_box && other.rebuild_box) || (self.reconstruct && other.reconstruct)
    }

    #[verifier::when_used_as_spec(spec_is_empty)]
    pub fn is_empty(self) -> (b: bool)
        ensures
            b == self.spec_is_empty(),
    {
        !self.relayout && !self.recollect_children && !self.rebuild_box && !self.reconstruct
    }

    #[verifier::when_used_as_spec(spec_has_box_damage)]
    pub fn has_box_damage(self) -> (b: bool)
        ensures
            b == self.spec_has_box_damage(),
    {
        self.recollect_children || self.rebuild_box || self.reconstruct
    }

    #[verifier::when_used_as_spec(spec_truncated)]
    pub fn truncated(self) -> (d: Damage)
        ensures
            d == self.spec_truncated(),
    {
        Damage {
            relayout: self.relayout,
            recollect_children: false,
            rebuild_box: false,
            reconstruct: false,
        }
    }

    /// Adds the flags of `other` in place.
    pub fn insert(&mut self, other: Damage)
        ensures
            *final(self) == old(self).spec_union(other),
    {
        *self = self.union(other);
    }

    /// Drops the structural flags in place.
    pub fn truncate(&mut self)
        ensures
            *final(self) == old(self).spec_truncated(),
    {
        *self = self.truncated();
    }
}

impl Default for Damage {
    fn default() -> (d: Damage)
        ensures
            d == Damage::spec_empty(),
    {
        Damage::empty()
    }
}

/// The named values form a chain: each contains the next milder one, and
/// every one of them is nested.
pub proof fn lemma_named_values_are_a_chain()
    ensures
        Damage::reconstruct().contains(Damage::rebuild_box_tree()),
        Damage::rebuild_box_tree().contains(Damage::recollect_box_tree_children()),
        Damage::recollect_box_tree_children().contains(Damage::relayout()),
        Damage::relayout().contains(Damage::empty()),
        Damage::reconstruct() != Damage::rebuild_box_tree(),
        Damage::rebuild_box_tree() != Damage::recollect_box_tree_children(),
        Damage::recollect_box_tree_children() != Damage::relayout(),
        Damage::relayout() != Damage::empty(),
        Damage::reconstruct().is_nested(),
        Damage::rebuild_box_tree().is_nested(),
        Damage::recollect_box_tree_children().is_nested(),
        Damage::relayout().is_nested(),
        Damage::empty().is_nested(),
{
}

/// Containment is a partial order on damage values.
pub proof fn lemma_contains_is_a_partial_order(a: Damage, b: Damage, c: Damage)
    ensures
        a.contains(a),
        a.contains(b) && b.contains(a) ==> a == b,
        a.contains(b) && b.contains(c) ==> a.contains(c),
{
}

/// Union is the least upper bound and intersection the greatest lower bound
/// of two damage values under containment.
pub proof fn lemma_union_and_intersection_are_bounds(a: Damage, b: Damage, c: Damage)
    ensures
        a.union(b).contains(a),
        a.union(b).contains(b),
        c.contains(a) && c.contains(b) ==> c.contains(a.union(b)),
        a.contains(a.intersection(b)),
        b.contains(a.intersection(b)),
        a.contains(c) && b.contains(c) ==> a.intersection(b).contains(c),
        a.union(b) == b.union(a),
        a.intersection(b) == b.intersection(a),
        a.union(a) == a,
        a.intersection(a) == a,
        a.union(Damage::empty()) == a,
        a.union(b).union(c) == a.union(b.union(c)),
{
}

/// A nested value is one of the five named values, and they are totally
/// ordered: a nested value has box damage exactly when it contains the
/// mildest structural value.
pub proof fn lemma_nested_values(a: Damage, b: Damage)
    requires
        a.is_nested(),
        b.is_nested(),
    ensures
        a == Damage::empty() || a == Damage::relayout() || a
            == Damage::recollect_box_tree_children() || a == Damage::rebuild_box_tree() || a
            == Damage::reconstruct(),
        a.contains(b) || b.contains(a),
        a.union(b).is_nested(),
        a.intersection(b).is_nested(),
        a.has_box_damage() <==> a.contains(Damage::recollect_box_tree_children()),
        !a.is_empty() <==> a.contains(Damage::relayout()),
{
}

/// Truncating keeps exactly the geometry flag: the result has no box damage,
/// is contained in what it came from, and truncating twice changes nothing.
pub proof fn lemma_truncated(a: Damage)
    ensures
        !a.truncated().has_box_damage(),
        a.contains(a.truncated()),
        a.truncated() == a.intersection(Damage::relayout()),
        a.truncated().truncated() == a.truncated(),
        a.truncated().is_nested(),
        a.has_box_damage() || a.truncated() == a,
{
}

} // verus!
