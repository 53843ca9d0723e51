//! The label widget.

use vstd::prelude::*;
use crate::components::Color;

verus! {

/// A label for displaying some bit of text on the screen.
#[derive(Debug)]
pub struct Label {
    pub text: String,
    pub font: (String, u16),
    pub color: Color,
    pub position: (i32, i32),
}

impl Label {
    /// A dark grey label at the origin that reads "Label" in the default font.
    pub fn new() -> (l: Label)
        ensures
            l.text@ == "Label"@,
            l.font.0@ == "komika.ttf"@,
            l.font.1 == 16,
            l.color == (Color { r: 0x33, g: 0x33, b: 0x33, a: 255 }),
            l.position == (0i32, 0i32),
    {
        Label {
            text: "Label".to_owned(),
            font: ("komika.ttf".to_owned(), 16),
            color: Color { r: 0x33, g: 0x33, b: 0x33, a: 255 },
            position: (0, 0),
        }
    }
}

} // verus!
