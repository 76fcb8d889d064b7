//! The optional textual payload of one table cell.

use vstd::prelude::*;
use vstd::string::StrSliceExecFns;

verus! {

/// A cell's text, or no text at all.  Absent content renders as nothing and
/// has width zero, which matters for column width computation.
pub struct Content(pub Option<String>);

impl Content {
    /// The character sequence of the content; empty when absent.
    pub open spec fn chars(&self) -> Seq<char> {
        match self.0 {
            Some(s) => s@,
            None => Seq::empty(),
        }
    }

    /// The character count of the content; zero when absent.
    pub open spec fn spec_width(&self) -> nat {
        self.chars().len()
    }

    /// The display width of the content in characters.
    pub fn width(&self) -> (w: usize)
        ensures
            w == self.spec_width(),
    {
        match &self.0 {
            Some(s) => s.as_str().unicode_len(),
            None => 0,
        }
    }

    /// Wraps an optional string as cell content.
    pub fn from_option(content: Option<String>) -> (r: Content)
        ensures
            r.0 == content,
    {
        Content(content)
    }

    /// Appends the content's characters, if any, to the buffer.
    pub fn append_to(&self, buffer: &mut String)
        ensures
            final(buffer)@ == old(buffer)@ + self.chars(),
    {
        match &self.0 {
            Some(s) => {
                buffer.append(s.as_str());
            },
            None => {
                proof {
                    assert(buffer@ =~= buffer@ + Seq::<char>::empty());
                }
            },
        }
    }
}

} // verus!
