//! Incremental invalidation of cached layout boxes after a restyle.
//!
//! The style pass ([`traversal::RecalcStyle`]) records, node by node, how much a
//! style change has damaged what layout cached. The damage pass
//! ([`traversal::compute_damage_and_repair_style`]) then walks the same tree,
//! decides for every node whether its box survives, is repaired in place or is
//! discarded, and reports upward what the parent still has to do.

pub mod cached_box;
pub mod damage;
pub mod dom;
pub mod execcommand;
pub mod largest_contentful_paint_candidate;
pub mod laws;
pub mod propagation;
pub mod traversal;
pub mod trustedscript;
