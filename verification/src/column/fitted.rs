//! A cell paired with the width it is to be fitted into, dispatching on its
//! alignment.

use vstd::prelude::*;
use crate::column::aligned::{
    fit_chars, Alignment, CentreAlignedFittedColumn, LeftAlignedFittedColumn,
    RightAlignedFittedColumn,
};
use crate::column::content::Content;

verus! {

pub enum AlignedFitted<'a> {
    Left(LeftAlignedFittedColumn<'a>),
    Centre(CentreAlignedFittedColumn<'a>),
    Right(RightAlignedFittedColumn<'a>),
}

/// A cell ready to be rendered into a fixed-width field.
pub struct FittedColumn<'a>(pub AlignedFitted<'a>);

impl<'a> FittedColumn<'a> {
    /// The alignment the cell will be fitted with.
    pub open spec fn spec_alignment(&self) -> Alignment {
        match self.0 {
            AlignedFitted::Left(_) => Alignment::Left,
            AlignedFitted::Centre(_) => Alignment::Centre,
            AlignedFitted::Right(_) => Alignment::Right,
        }
    }

    /// The content the cell will render.
    pub open spec fn spec_content(&self) -> Content {
        match self.0 {
            AlignedFitted::Left(c) => *c.content,
            AlignedFitted::Centre(c) => *c.content,
            AlignedFitted::Right(c) => *c.content,
        }
    }

    /// The width of the field the cell will be fitted into.
    pub open spec fn spec_width(&self) -> nat {
        match self.0 {
            AlignedFitted::Left(c) => c.width as nat,
            AlignedFitted::Centre(c) => c.width as nat,
            AlignedFitted::Right(c) => c.width as nat,
        }
    }

    pub fn new(alignment: Alignment, content: &'a Content, width: usize) -> (r: Self)
        ensures
            r.spec_alignment() == alignment,
            r.spec_content() == *content,
            r.spec_width() == width as nat,
    {
        let fitted = match alignment {
            Alignment::Left => AlignedFitted::Left(LeftAlignedFittedColumn::new(content, width)),
            Alignment::Centre => AlignedFitted::Centre(
                CentreAlignedFittedColumn::new(content, width),
            ),
            Alignment::Right => AlignedFitted::Right(
                RightAlignedFittedColumn::new(content, width),
            ),
        };
        FittedColumn(fitted)
    }

    /// Appends the fitted cell text to the buffer.
    pub fn append_to(&self, buffer: &mut String)
        requires
            self.spec_content().spec_width() <= self.spec_width(),
        ensures
            final(buffer)@ == old(buffer)@ + fit_chars(
                self.spec_alignment(),
                self.spec_content().chars(),
                self.spec_width(),
            ),
    {
        match &self.0 {
            AlignedFitted::Left(column) => column.append_to(buffer),
            AlignedFitted::Centre(column) => column.append_to(buffer),
            AlignedFitted::Right(column) => column.append_to(buffer),
        }
    }
}

} // verus!
