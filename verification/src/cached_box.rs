//! A plain box for trees that carry no layout of their own.
//!
//! [`CachedBox`] keeps what the damage pass can tell apart in a box: the style
//! it points at, whether its fragments are still cached, and whether it sits
//! in its parent's inline flow. The last one matters upward: an inline-level
//! box is laid out as part of its parent's lines, so when the style of its
//! element changes, the parent has to collect its child boxes again.

use vstd::prelude::*;
use crate::damage::Damage;
use crate::dom::{ComputedStyle, LayoutBox, SharedStyleContext};

verus! {

/// A box with a style reference and a fragment cache.
#[derive(Clone, Copy, Debug, PartialEq, Eq, Structural)]
pub struct CachedBox {
    /// The style that the box points at.
    pub style: ComputedStyle,
    /// The fragments of the last layout are still there to be used again.
    pub fragments_cached: bool,
    /// The box takes part in its parent's inline flow.
    pub inline_level: bool,
}

impl CachedBox {
    /// A box fresh from layout: it points at `style` and its fragments are
    /// cached.
    pub fn new(style: ComputedStyle, inline_level: bool) -> (layout_box: CachedBox)
        ensures
            layout_box == (CachedBox { style, fragments_cached: true, inline_level }),
    {
        CachedBox { style, fragments_cached: true, inline_level }
    }
}

impl LayoutBox for CachedBox {
    /// Taking damage in drops the cached fragments, whatever the damage.
    open spec fn damaged(&self, own: Damage, from_children: Damage) -> CachedBox {
        CachedBox { fragments_cached: false, ..*self }
    }

    /// An inline-level box whose element has damage of its own asks the
    /// parent to collect its child boxes again. Any other box reports
    /// nothing.
    open spec fn reported(&self, own: Damage, from_children: Damage) -> Damage {
        if self.inline_level && !own.is_empty() {
            Damage::recollect_box_tree_children()
        } else {
            Damage::empty()
        }
    }

    /// Pointing at another style leaves the caches alone.
    open spec fn restyled(&self, context: SharedStyleContext, style: ComputedStyle) -> CachedBox {
        CachedBox { style, ..*self }
    }

    fn add_damage(&mut self, own: Damage, from_children: Damage) -> (extra: Damage) {
        self.fragments_cached = false;
        if self.inline_level && !own.is_empty() {
            Damage::recollect_box_tree_children()
        } else {
            Damage::empty()
        }
    }

    fn repair_style(&mut self, context: &SharedStyleContext, style: &ComputedStyle) {
        self.style = *style;
    }
}

} // verus!
