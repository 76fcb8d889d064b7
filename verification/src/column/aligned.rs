//! Fitting cell content into a fixed-width field with left, centre, or
//! right alignment, and the laws the fitting obeys.

use vstd::prelude::*;
use crate::column::content::Content;

verus! {

/// How a cell's content sits inside its column.
#[derive(Clone, Copy, PartialEq, Eq, Structural, Debug)]
pub enum Alignment {
    Left,
    Centre,
    Right,
}

/// A run of `n` space characters.
pub open spec fn space_run(n: nat) -> Seq<char> {
    Seq::new(n, |i: int| ' ')
}

/// What fitting `content` into a field of `width` characters yields:
/// left alignment pads on the right, right alignment pads on the left, and
/// centre alignment splits the gap with the smaller half on the left.
pub open spec fn fit_chars(alignment: Alignment, content: Seq<char>, width: nat) -> Seq<char>
    recommends
        content.len() <= width,
{
    let gap = (width - content.len()) as nat;
    match alignment {
        Alignment::Left => content + space_run(gap),
        Alignment::Right => space_run(gap) + content,
        Alignment::Centre => space_run(gap / 2) + content + space_run((gap - gap / 2) as nat),
    }
}

/// Appends `n` space characters to the buffer.
pub fn append_spaces(buffer: &mut String, n: usize)
    ensures
        final(buffer)@ == old(buffer)@ + space_run(n as nat),
{
    let mut i: usize = 0;
    proof {
        reveal_strlit(" ");
    }
    while i < n
        invariant
            i <= n,
            buffer@ == old(buffer)@ + space_run(i as nat),
        decreases n - i,
    {
        buffer.append(" ");
        proof {
            reveal_strlit(" ");
            assert(buffer@ =~= old(buffer)@ + space_run((i + 1) as nat));
        }
        i = i + 1;
    }
    proof {
        if n == 0 {
            assert(buffer@ =~= old(buffer)@ + space_run(0));
        }
    }
}

/// A cell fitted flush left into a field of the given width.
pub struct LeftAlignedFittedColumn<'a> {
    pub content: &'a Content,
    pub width: usize,
}

impl<'a> LeftAlignedFittedColumn<'a> {
    pub fn new(content: &'a Content, width: usize) -> (r: Self)
        ensures
            r.content == content,
            r.width == width,
    {
        LeftAlignedFittedColumn { content, width }
    }

    /// Appends the content followed by the padding spaces.
    pub fn append_to(&self, buffer: &mut String)
        requires
            self.content.spec_width() <= self.width,
        ensures
            final(buffer)@ == old(buffer)@ + fit_chars(
                Alignment::Left,
                self.content.chars(),
                self.width as nat,
            ),
    {
        self.content.append_to(buffer);
        append_spaces(buffer, self.width - self.content.width());
        proof {
            assert(buffer@ =~= old(buffer)@ + fit_chars(
                Alignment::Left,
                self.content.chars(),
                self.width as nat,
            ));
        }
    }
}

/// A cell fitted flush right into a field of the given width.
pub struct RightAlignedFittedColumn<'a> {
    pub content: &'a Content,
    pub width: usize,
}

impl<'a> RightAlignedFittedColumn<'a> {
    pub fn new(content: &'a Content, width: usize) -> (r: Self)
        ensures
            r.content == content,
            r.width == width,
    {
        RightAlignedFittedColumn { content, width }
    }

    /// Appends the padding spaces followed by the content.
    pub fn append_to(&self, buffer: &mut String)
        requires
            self.content.spec_width() <= self.width,
        ensures
            final(buffer)@ == old(buffer)@ + fit_chars(
                Alignment::Right,
                self.content.chars(),
                self.width as nat,
            ),
    {
        append_spaces(buffer, self.width - self.content.width());
        self.content.append_to(buffer);
        proof {
            assert(buffer@ =~= old(buffer)@ + fit_chars(
                Alignment::Right,
                self.content.chars(),
                self.width as nat,
            ));
        }
    }
}

/// A cell fitted centred into a field of the given width; an odd padding
/// gap leaves the extra space on the right.
pub struct CentreAlignedFittedColumn<'a> {
    pub content: &'a Content,
    pub width: usize,
}

impl<'a> CentreAlignedFittedColumn<'a> {
    pub fn new(content: &'a Content, width: usize) -> (r: Self)
        ensures
            r.content == content,
            r.width == width,
    {
        CentreAlignedFittedColumn { content, width }
    }

    /// Appends the left padding, the content, then the right padding.
    pub fn append_to(&self, buffer: &mut String)
        requires
            self.content.spec_width() <= self.width,
        ensures
            final(buffer)@ == old(buffer)@ + fit_chars(
                Alignment::Centre,
                self.content.chars(),
                self.width as nat,
            ),
    {
        let available = self.width - self.content.width();
        let quotient = available / 2;
        let remainder = available % 2;
        append_spaces(buffer, quotient);
        self.content.append_to(buffer);
        append_spaces(buffer, quotient + remainder);
        proof {
            let gap = (self.width - self.content.spec_width()) as nat;
            assert(quotient + remainder == gap - gap / 2);
            assert(buffer@ =~= old(buffer)@ + fit_chars(
                Alignment::Centre,
                self.content.chars(),
                self.width as nat,
            ));
        }
    }
}

/// Law: fitting never loses or reorders the content.  For every alignment
/// the result has exactly the target width and holds the content as one
/// contiguous substring.
pub proof fn lemma_fit_preserves_content(alignment: Alignment, content: Seq<char>, width: nat)
    requires
        content.len() <= width,
    ensures
        fit_chars(alignment, content, width).len() == width,
        exists|off: int|
            0 <= off && off + content.len() <= width && #[trigger] fit_chars(
                alignment,
                content,
                width,
            ).subrange(off, off + content.len() as int) == content,
{
    let fit = fit_chars(alignment, content, width);
    let gap = (width - content.len()) as nat;
    let off: int = match alignment {
        Alignment::Left => 0,
        Alignment::Right => gap as int,
        Alignment::Centre => (gap / 2) as int,
    };
    assert(fit.len() == width);
    assert(fit.subrange(off, off + content.len() as int) =~= content);
    assert(0 <= off && off + content.len() <= width && fit_chars(
        alignment,
        content,
        width,
    ).subrange(off, off + content.len() as int) == content);
}

/// Law: centre fitting splits an odd padding gap `p` into `p / 2` spaces on
/// the left and `p - p / 2` on the right, so the extra space goes right.
pub proof fn lemma_centre_gap_split(content: Seq<char>, width: nat)
    requires
        content.len() <= width,
    ensures
        ({
            let p = (width - content.len()) as nat;
            let fit = fit_chars(Alignment::Centre, content, width);
            &&& fit == space_run(p / 2) + content + space_run((p - p / 2) as nat)
            &&& (p % 2 == 1 ==> p - p / 2 == p / 2 + 1)
            &&& (p % 2 == 0 ==> p - p / 2 == p / 2)
        }),
{
}

} // verus!
