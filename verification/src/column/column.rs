//! One table cell: content together with its alignment.

use vstd::prelude::*;
use crate::column::aligned::Alignment;
use crate::column::content::Content;
use crate::column::fitted::FittedColumn;

verus! {

/// One cell of the rendered table.
pub struct Column {
    pub alignment: Alignment,
    pub content: Content,
}

impl Column {
    /// The character count of the cell's content.
    pub open spec fn spec_width(&self) -> nat {
        self.content.spec_width()
    }

    pub fn new(alignment: Alignment, content: Content) -> (r: Self)
        ensures
            r.alignment == alignment,
            r.content == content,
    {
        Column { alignment, content }
    }

    /// A cell that always has content.
    pub fn from_string(alignment: Alignment, content: String) -> (r: Self)
        ensures
            r.alignment == alignment,
            r.content.0 == Some(content),
    {
        Column { alignment, content: Content(Some(content)) }
    }

    /// The cell's display width in characters.
    pub fn width(&self) -> (w: usize)
        ensures
            w == self.spec_width(),
    {
        self.content.width()
    }

    /// The cell prepared for rendering into a field of the given width.
    pub fn as_fitted(&self, width: usize) -> (r: FittedColumn<'_>)
        ensures
            r.spec_alignment() == self.alignment,
            r.spec_content() == self.content,
            r.spec_width() == width as nat,
    {
        FittedColumn::new(self.alignment, &self.content, width)
    }
}

} // verus!
