use vstd::prelude::*;

verus! {

/// Width of the margin the renderer draws left of the text: an indicator
/// column, the line number, and one space.
pub const COL_OFFSET: usize = 5;

/// Scroll state of the visible window into the document: the first visible
/// column and the first visible line. The thresholds that decide when to
/// scroll belong to the presentation layer; this state only records where
/// the window stands.
pub struct Viewport {
    /// First visible column, `0`-based.
    xscroll: usize,
    /// First visible line, `0`-based.
    yscroll: usize,
}

impl Viewport {
    /// First visible column.
    pub closed spec fn spec_x(self) -> int {
        self.xscroll as int
    }

    /// First visible line.
    pub closed spec fn spec_y(self) -> int {
        self.yscroll as int
    }

    /// A window at the document's top left corner.
    pub fn new() -> (r: Viewport)
        ensures
            r.spec_x() == 0,
            r.spec_y() == 0,
    {
        Viewport { xscroll: 0, yscroll: 0 }
    }

    /// First visible column.
    pub fn x_scroll(&self) -> (r: usize)
        ensures
            r == self.spec_x(),
    {
        self.xscroll
    }

    /// First visible line.
    pub fn y_scroll(&self) -> (r: usize)
        ensures
            r == self.spec_y(),
    {
        self.yscroll
    }

    /// Moves the window to the given first visible column.
    pub fn adjust_x_scroll(&mut self, x: usize)
        ensures
            final(self).spec_x() == x,
            final(self).spec_y() == old(self).spec_y(),
    {
        self.xscroll = x;
    }

    /// Moves the window to the given first visible line.
    pub fn adjust_y_scroll(&mut self, y: usize)
        ensures
            final(self).spec_x() == old(self).spec_x(),
            final(self).spec_y() == y,
    {
        self.yscroll = y;
    }

    /// The part of one line that a terminal of the given width shows: the
    /// text from the first visible column on, cut to the room left of the
    /// margin. The first flag says whether text is scrolled off to the left
    /// of the window, the second whether text runs past its right edge.
    pub fn visible_text_window<'a>(&self, line_text: &'a str, terminal_width: usize) -> (r: (
        bool,
        &'a str,
        bool,
    ))
        requires
            COL_OFFSET + 1 <= terminal_width,
        ensures
            r.0 == (0 < self.spec_x() < line_text@.len()),
            self.spec_x() < line_text@.len() ==> r.1@ == line_text@.subrange(
                self.spec_x(),
                vstd::math::min(
                    line_text@.len() as int,
                    self.spec_x() + terminal_width - COL_OFFSET - 1,
                ),
            ) && r.2 == (line_text@.len() - self.spec_x() > terminal_width - COL_OFFSET - 1),
            self.spec_x() >= line_text@.len() ==> r.1@ == Seq::<char>::empty() && r.2 == false,
    {
        let len = line_text.unicode_len();
        let xind = self.xscroll > 0;
        if self.xscroll < len {
            let avail = terminal_width - COL_OFFSET - 1;
            if len - self.xscroll <= avail {
                let s = line_text.substring_char(self.xscroll, len);
                (xind, s, false)
            } else {
                let s = line_text.substring_char(self.xscroll, self.xscroll + avail);
                (xind, s, true)
            }
        } else {
            let s = line_text.substring_char(0, 0);
            proof {
                assert(s@ =~= Seq::<char>::empty());
            }
            (false, s, false)
        }
    }
}

} // verus!
