//! Where a rendered payload goes on the screen.

use vstd::prelude::*;
use crate::geometry::ElementBox;

verus! {

/// A rectangle on the screen.
#[derive(Clone, Copy, Debug, PartialEq, Eq, Structural)]
pub struct Placement {
    pub x: i32,
    pub y: i32,
    pub width: u32,
    pub height: u32,
}

/// The extent to draw at: the solved one, or that of the texture where
/// nothing was solved.
pub open spec fn drawn_extent(solved: u32, texture: u32) -> u32 {
    if solved == 0 {
        texture
    } else {
        solved
    }
}

/// Where the texture of an entity is drawn: at the solved position, the
/// origin if it has no rectangle, in the solved size, or in the size of the
/// texture in a dimension in which nothing was solved.
pub open spec fn placement_of(may_el: Option<ElementBox>, texture: (u32, u32)) -> Placement {
    match may_el {
        Some(el) => Placement {
            x: el.x,
            y: el.y,
            width: drawn_extent(el.width, texture.0),
            height: drawn_extent(el.height, texture.1),
        },
        None => Placement { x: 0, y: 0, width: texture.0, height: texture.1 },
    }
}

/// Whether there is anything to draw: neither dimension is empty.
pub open spec fn visible(may_el: Option<ElementBox>, texture: (u32, u32)) -> bool {
    placement_of(may_el, texture).width != 0 && placement_of(may_el, texture).height != 0
}

/// Whether there is anything to draw.
pub fn is_visible(may_el: Option<&ElementBox>, texture: (u32, u32)) -> (b: bool)
    ensures
        b == visible(
            match may_el {
                Some(el) => Some(*el),
                None => None,
            },
            texture,
        ),
{
    let (w, h) = match may_el {
        Some(el) => (el.width, el.height),
        None => (0, 0),
    };
    let w = if w == 0 {
        texture.0
    } else {
        w
    };
    let h = if h == 0 {
        texture.1
    } else {
        h
    };
    w != 0 && h != 0
}

/// Where the texture of an entity is drawn.
pub fn placement(may_el: Option<&ElementBox>, texture: (u32, u32)) -> (p: Placement)
    requires
        visible(
            match may_el {
                Some(el) => Some(*el),
                None => None,
            },
            texture,
        ),
    ensures
        p == placement_of(
            match may_el {
                Some(el) => Some(*el),
                None => None,
            },
            texture,
        ),
{
    let (tw, th) = texture;
    let x = match may_el {
        Some(el) => el.x,
        None => 0,
    };
    let y = match may_el {
        Some(el) => el.y,
        None => 0,
    };
    let w = match may_el {
        Some(el) => el.width,
        None => 0,
    };
    let w = if w == 0 {
        tw
    } else {
        w
    };
    let h = match may_el {
        Some(el) => el.height,
        None => 0,
    };
    let h = if h == 0 {
        th
    } else {
        h
    };
    Placement { x, y, width: w, height: h }
}

} // verus!
