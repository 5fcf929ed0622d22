//! Paragraph-level layout attributes.

use vstd::prelude::*;

verus! {

/// Horizontal alignment of a paragraph, set by the control words
/// `\ql`, `\qr`, `\qc` and `\qj`.
#[derive(Clone, Copy, Debug, PartialEq, Eq, Structural)]
pub enum Alignment {
    LeftAligned,
    RightAligned,
    Center,
    Justify,
}

/// Layout attributes of a run of text: alignment (`\ql` etc.), left
/// indentation (`\li`), and vertical spacing before and after (`\sb`,
/// `\sa`). A value type with a well-defined default.
#[derive(Clone, Copy, Debug, PartialEq, Eq, Structural)]
pub struct Paragraph {
    pub alignment: Alignment,
    pub indent: i16,
    pub space_before: i16,
    pub space_after: i16,
}

impl Paragraph {
    /// The default layout: left-aligned, no indentation, no spacing.
    pub open spec fn spec_default() -> Paragraph {
        Paragraph {
            alignment: Alignment::LeftAligned,
            indent: 0,
            space_before: 0,
            space_after: 0,
        }
    }
}

impl Default for Paragraph {
    fn default() -> (r: Paragraph)
        ensures
            r == Paragraph::spec_default(),
    {
        Paragraph {
            alignment: Alignment::LeftAligned,
            indent: 0,
            space_before: 0,
            space_after: 0,
        }
    }
}

} // verus!
