//! Backend-neutral text styling of drawing primitives.

use vstd::prelude::*;

verus! {

/// Horizontal alignment of a text primitive around its anchor point.
#[derive(Clone, Copy, Debug, PartialEq, Eq, Structural)]
pub enum TextAnchor {
    Start,
    Middle,
    End,
}

/// Weight of a text primitive.
#[derive(Clone, Copy, Debug, PartialEq, Eq, Structural)]
pub enum TextWeight {
    Normal,
    Bold,
}

impl Default for TextAnchor {
    fn default() -> (a: TextAnchor)
        ensures
            a == TextAnchor::Start,
    {
        TextAnchor::Start
    }
}

impl Default for TextWeight {
    fn default() -> (w: TextWeight)
        ensures
            w == TextWeight::Normal,
    {
        TextWeight::Normal
    }
}

} // verus!
