use crate::content::content_of_doc;
use crate::content::doc_of_content;
use crate::content::lemma_join_push;
use crate::content::lemma_split_nonempty;
use crate::content::lemma_split_step;
use crate::content::lemma_split_trailing;
use crate::content::prepend_first;
use crate::content::split_newlines;
use crate::line::Line;
use crate::line::MAX_LINE_LEN;
use vstd::prelude::*;

verus! {

/// A document may not grow to this many lines; the bound keeps line counting
/// clear of `usize` overflow.
pub const MAX_LINES: usize = usize::MAX / 8;

/// What a deletion request did.
#[derive(Debug, PartialEq, Eq, Structural)]
pub enum DEL {
    /// One character left the active line.
    Yes,
    /// Nothing stood where the deletion pointed; the document is unchanged.
    No,
    /// The deletion crossed a line boundary: two lines were joined, and the
    /// payload is the column of the join point, where the cursor now stands.
    NewLine(usize),
}

/// Splitting a line at the cursor and then immediately joining at the new
/// line's start (a backspace at column `0`) restores the original document
/// exactly, and the join point is the original cursor column. The first
/// sequence below is what `insert_newline` leaves behind; rewriting it as
/// `backspace` does at the start of the new line gives back the document it
/// started from.
pub proof fn lemma_split_then_join(doc: Seq<Seq<char>>, a: int, c: int)
    requires
        0 <= a < doc.len(),
        0 <= c <= doc[a].len(),
    ensures
        ({
            let split = doc.update(a, doc[a].take(c)).insert(a + 1, doc[a].skip(c));
            let joined = split.update(a, split[a] + split[a + 1]).remove(a + 1);
            joined == doc && split[a].len() == c
        }),
{
    let split = doc.update(a, doc[a].take(c)).insert(a + 1, doc[a].skip(c));
    let joined = split.update(a, split[a] + split[a + 1]).remove(a + 1);
    assert(split[a] + split[a + 1] =~= doc[a]);
    assert(joined =~= doc);
}

/// The visible text of each line of a sequence of lines.
pub(crate) open spec fn line_views(v: Seq<Line>) -> Seq<Seq<char>> {
    v.map_values(|l: Line| l@)
}

/// The listing of every line from the given index on: each line's 1-based
/// number, a separator, and its text.
pub open spec fn show_lines_spec(ls: Seq<Seq<char>>, i: int) -> Seq<char>
    decreases ls.len() - i,
{
    if i < 0 || i >= ls.len() {
        Seq::<char>::empty()
    } else {
        crate::num::dec_str(i + 1) + seq![' ', '|', ' '] + ls[i] + show_lines_spec(ls, i + 1)
    }
}

/// The editing-state dump that `show` returns: the 1-based line and column
/// of the cursor, then the listing of every line.
pub open spec fn show_spec(doc: Seq<Seq<char>>, active: int, col: int) -> Seq<char> {
    seq!['l', 'i', 'n', 'e', ':', ' '] + crate::num::dec_str(active + 1) + seq![
        ',',
        ' ',
        'c',
        'u',
        'r',
        's',
        'o',
        'r',
        ':',
        ' ',
    ] + crate::num::dec_str(col + 1) + seq!['\n'] + show_lines_spec(doc, 0)
}

/// An ordered collection of lines with one active line, a cursor inside it,
/// and a remembered column that vertical motion steers toward.
///
/// The lines up to and including the active one sit in `prelines` in order;
/// the lines after it sit in `postlines` in reverse order, so that moving the
/// active-line pointer either way is a pop and a push.
pub struct SubEditor {
    /// The lines up to and including the active one, in document order.
    prelines: Vec<Line>,
    /// The lines after the active one, last document line first.
    postlines: Vec<Line>,
    /// The column that vertical motion steers toward: the cursor column as
    /// the last horizontal motion or edit left it.
    col_mem: usize,
    /// Whether any edit has been applied since load or save.
    modified: bool,
}

impl View for SubEditor {
    type V = Seq<Seq<char>>;

    /// The text of the document's lines, in document order.
    closed spec fn view(&self) -> Seq<Seq<char>> {
        line_views(self.prelines@) + line_views(self.postlines@).reverse()
    }
}

impl SubEditor {
    /// The document invariant: at least one line, every line well formed, and
    /// the line count bounded.
    pub closed spec fn wf(self) -> bool {
        &&& 1 <= self.prelines@.len()
        &&& self.prelines@.len() + self.postlines@.len() <= MAX_LINES
        &&& forall|i: int| 0 <= i < self.prelines@.len() ==> (#[trigger] self.prelines@[i]).wf()
        &&& forall|i: int| 0 <= i < self.postlines@.len() ==> (#[trigger] self.postlines@[i]).wf()
    }

    /// Index of the active line, `0`-based.
    pub closed spec fn active(self) -> int {
        self.prelines@.len() - 1
    }

    /// The cursor column inside the active line, `0`-based.
    pub closed spec fn col(self) -> int {
        self.prelines@.last().spec_cursor()
    }

    /// The column that vertical motion steers toward.
    pub closed spec fn remembered(self) -> int {
        self.col_mem as int
    }

    /// Whether any edit has been applied since load or save.
    pub closed spec fn spec_modified(self) -> bool {
        self.modified
    }

    /// Basic consequences of the invariant: the active line exists and the
    /// cursor lies inside it.
    pub proof fn lemma_wf(self)
        requires
            self.wf(),
        ensures
            1 <= self@.len() <= MAX_LINES,
            0 <= self.active() < self@.len(),
            0 <= self.col() <= self@[self.active()].len(),
    {
        let a = self.active();
        let l = self.prelines@[a];
        assert(l.wf());
        l.lemma_len();
        assert(self.col() == l.spec_cursor());
        assert(line_views(self.prelines@)[a] == l@);
        assert(self@[a] == l@);
    }

    /// Index of the line the cursor is on, `0`-based; display layers add one.
    /// For the `1`-based line number itself see `active_line_number`.
    pub fn curr_line_num(&self) -> (r: usize)
        requires
            self.wf(),
        ensures
            r == self.active(),
    {
        self.prelines.len() - 1
    }

    /// The `1`-based number of the line the cursor is on: the first line is
    /// number one, and the number never passes the line count.
    pub fn active_line_number(&self) -> (r: usize)
        requires
            self.wf(),
        ensures
            r == self.active() + 1,
            1 <= r <= self@.len(),
    {
        proof {
            self.lemma_wf();
        }
        self.prelines.len()
    }

    /// How many lines the document holds; never zero.
    pub fn num_lines(&self) -> (r: usize)
        requires
            self.wf(),
        ensures
            r == self@.len(),
    {
        self.prelines.len() + self.postlines.len()
    }

    /// The text of the active line.
    pub fn curr_line(&self) -> (r: String)
        requires
            self.wf(),
        ensures
            r@ == self@[self.active()],
    {
        proof {
            self.lemma_wf();
            self.lemma_active_line();
        }
        let curr_line = self.curr_line_num();
        self.prelines[curr_line].show()
    }

    /// Length of the active line.
    pub fn linelen(&self) -> (r: usize)
        requires
            self.wf(),
        ensures
            r == self@[self.active()].len(),
    {
        proof {
            self.lemma_wf();
            self.lemma_active_line();
        }
        let curr_line = self.curr_line_num();
        self.prelines[curr_line].len()
    }

    /// The cursor column inside the active line, `0`-based.
    pub fn cursor(&self) -> (r: usize)
        requires
            self.wf(),
        ensures
            r == self.col(),
    {
        let curr_line = self.curr_line_num();
        self.prelines[curr_line].cursor()
    }

    /// The active line is the last of the pre lines.
    proof fn lemma_active_line(self)
        requires
            self.wf(),
        ensures
            self@[self.active()] == self.prelines@.last()@,
            self.prelines@.last().wf(),
    {
        let a = self.active();
        assert(line_views(self.prelines@)[a] == self.prelines@[a]@);
    }

    /// Replacing the last of the pre lines rewrites exactly the active line
    /// of the document view.
    proof fn lemma_update_active(self, other: Self, x: Line)
        requires
            self.prelines@.len() >= 1,
            other.prelines@ == self.prelines@.drop_last().push(x),
            other.postlines@ == self.postlines@,
        ensures
            other@ == self@.update(self.prelines@.len() - 1, x@),
    {
        assert(other@ =~= self@.update(self.prelines@.len() - 1, x@));
    }

    /// Inserts a character at the cursor of the active line; the cursor
    /// advances past it and the remembered column follows.
    pub fn insert(&mut self, newchar: char)
        requires
            old(self).wf(),
            old(self)@[old(self).active()].len() < MAX_LINE_LEN,
        ensures
            final(self).wf(),
            final(self)@ == old(self)@.update(
                old(self).active(),
                old(self)@[old(self).active()].insert(old(self).col(), newchar),
            ),
            final(self).active() == old(self).active(),
            final(self).col() == old(self).col() + 1,
            final(self).remembered() == final(self).col(),
            final(self).spec_modified(),
    {
        proof {
            old(self).lemma_active_line();
        }
        let mut l = self.prelines.pop().unwrap();
        l.insert(newchar);
        self.col_mem = l.cursor();
        self.prelines.push(l);
        self.modified = true;
        proof {
            old(self).lemma_update_active(*self, l);
            assert(self.prelines@.last() == l);
        }
    }

    /// Moves the cursor one column left inside the active line; reports
    /// whether it moved (false at the line start). The remembered column
    /// follows the cursor.
    pub fn move_left(&mut self) -> (r: bool)
        requires
            old(self).wf(),
        ensures
            final(self).wf(),
            final(self)@ == old(self)@,
            final(self).active() == old(self).active(),
            final(self).col() == crate::line::left_of(old(self).col()),
            final(self).remembered() == final(self).col(),
            r == (old(self).col() > 0),
            final(self).spec_modified() == old(self).spec_modified(),
    {
        proof {
            old(self).lemma_active_line();
        }
        let mut l = self.prelines.pop().unwrap();
        let r = l.move_l();
        self.col_mem = l.cursor();
        self.prelines.push(l);
        proof {
            old(self).lemma_update_active(*self, l);
            assert(self.prelines@.last() == l);
            assert(self@ =~= old(self)@);
        }
        r
    }

    /// Moves the cursor one column right inside the active line; reports
    /// whether it moved (false at the line end). The remembered column
    /// follows the cursor.
    pub fn move_right(&mut self) -> (r: bool)
        requires
            old(self).wf(),
        ensures
            final(self).wf(),
            final(self)@ == old(self)@,
            final(self).active() == old(self).active(),
            final(self).col() == crate::line::right_of(
                old(self).col(),
                old(self)@[old(self).active()].len() as int,
            ),
            final(self).remembered() == final(self).col(),
            r == (old(self).col() < old(self)@[old(self).active()].len()),
            final(self).spec_modified() == old(self).spec_modified(),
    {
        proof {
            old(self).lemma_active_line();
        }
        let mut l = self.prelines.pop().unwrap();
        let r = l.move_r();
        self.col_mem = l.cursor();
        self.prelines.push(l);
        proof {
            old(self).lemma_update_active(*self, l);
            assert(self.prelines@.last() == l);
            assert(self@ =~= old(self)@);
        }
        r
    }

    /// Steps the cursor to the start of the active line, column `0`.
    pub fn move_start(&mut self)
        requires
            old(self).wf(),
        ensures
            final(self).wf(),
            final(self)@ == old(self)@,
            final(self).active() == old(self).active(),
            final(self).col() == 0,
            final(self).remembered() == 0,
            final(self).spec_modified() == old(self).spec_modified(),
    {
        proof {
            old(self).lemma_active_line();
        }
        let mut l = self.prelines.pop().unwrap();
        l.move_start();
        self.prelines.push(l);
        self.col_mem = 0;
        proof {
            old(self).lemma_update_active(*self, l);
            assert(self.prelines@.last() == l);
            assert(self@ =~= old(self)@);
        }
    }

    /// Steps the cursor to the end of the active line.
    pub fn move_end(&mut self)
        requires
            old(self).wf(),
        ensures
            final(self).wf(),
            final(self)@ == old(self)@,
            final(self).active() == old(self).active(),
            final(self).col() == old(self)@[old(self).active()].len(),
            final(self).remembered() == final(self).col(),
            final(self).spec_modified() == old(self).spec_modified(),
    {
        proof {
            old(self).lemma_active_line();
        }
        let mut l = self.prelines.pop().unwrap();
        l.move_end();
        self.col_mem = l.cursor();
        self.prelines.push(l);
        proof {
            old(self).lemma_update_active(*self, l);
            assert(self.prelines@.last() == l);
            assert(self@ =~= old(self)@);
        }
    }

    /// Moving the last pre line onto the post stack leaves the document's
    /// text unchanged, as long as the line's text is preserved.
    proof fn lemma_shift_up(self, other: Self, x: Line)
        requires
            self.prelines@.len() >= 2,
            x@ == self.prelines@.last()@,
            other.prelines@ == self.prelines@.drop_last(),
            other.postlines@ == self.postlines@.push(x),
        ensures
            other@ == self@,
    {
        assert(other@ =~= self@);
    }

    /// Moving the top post line onto the pre lines leaves the document's
    /// text unchanged, as long as the line's text is preserved.
    proof fn lemma_shift_down(self, other: Self, x: Line)
        requires
            self.postlines@.len() >= 1,
            x@ == self.postlines@.last()@,
            other.prelines@ == self.prelines@.push(x),
            other.postlines@ == self.postlines@.drop_last(),
        ensures
            other@ == self@,
    {
        assert(other@ =~= self@);
    }

    /// Column memory across lines of different length: a cursor steering
    /// toward a remembered column snaps to the end of a line shorter than
    /// that column, and lands on the remembered column itself on any line at
    /// least that long. `move_up` and `move_down` put the cursor at the
    /// minimum below and never change the remembered column, so a passage
    /// through a short line does not lose the column.
    pub proof fn lemma_column_memory(remembered: int, short_len: int, long_len: int)
        requires
            0 <= short_len <= remembered <= long_len,
        ensures
            vstd::math::min(remembered, short_len) == short_len,
            vstd::math::min(remembered, long_len) == remembered,
    {
    }

    /// Makes the next line active, stepping its cursor to the remembered
    /// column, or to the line's end where the line is shorter; reports
    /// whether there was a next line. The remembered column itself does not
    /// change, so a long column survives a passage through short lines.
    pub fn move_down(&mut self) -> (r: bool)
        requires
            old(self).wf(),
        ensures
            final(self).wf(),
            final(self)@ == old(self)@,
            final(self).remembered() == old(self).remembered(),
            final(self).spec_modified() == old(self).spec_modified(),
            r == (old(self).active() + 1 < old(self)@.len()),
            r ==> final(self).active() == old(self).active() + 1,
            r ==> final(self).col() == vstd::math::min(
                old(self).remembered(),
                old(self)@[old(self).active() + 1].len() as int,
            ),
            !r ==> *final(self) == *old(self),
    {
        if self.postlines.len() > 0 {
            let mut l = self.postlines.pop().unwrap();
            let ghost popped = l;
            let cm = self.col_mem;
            l.seek(cm);
            self.prelines.push(l);
            proof {
                assert(old(self)@[old(self).active() + 1] == popped@);
                old(self).lemma_shift_down(*self, l);
                assert(self.prelines@.last() == l);
            }
            true
        } else {
            false
        }
    }

    /// Makes the previous line active, stepping its cursor to the remembered
    /// column, or to the line's end where the line is shorter; reports
    /// whether there was a previous line. The remembered column itself does
    /// not change.
    pub fn move_up(&mut self) -> (r: bool)
        requires
            old(self).wf(),
        ensures
            final(self).wf(),
            final(self)@ == old(self)@,
            final(self).remembered() == old(self).remembered(),
            final(self).spec_modified() == old(self).spec_modified(),
            r == (old(self).active() > 0),
            r ==> final(self).active() == old(self).active() - 1,
            r ==> final(self).col() == vstd::math::min(
                old(self).remembered(),
                old(self)@[old(self).active() - 1].len() as int,
            ),
            !r ==> *final(self) == *old(self),
    {
        if self.prelines.len() > 1 {
            let x = self.prelines.pop().unwrap();
            self.postlines.push(x);
            let ghost mid = *self;
            proof {
                old(self).lemma_shift_up(mid, x);
            }
            let mut l = self.prelines.pop().unwrap();
            let ghost before_seek = l;
            let cm = self.col_mem;
            l.seek(cm);
            self.prelines.push(l);
            proof {
                assert(old(self)@[old(self).active() - 1] == before_seek@);
                mid.lemma_update_active(*self, l);
                assert(self@ =~= old(self)@);
                assert(self.prelines@.last() == l);
            }
            true
        } else {
            false
        }
    }

    /// Makes the first line active and puts the cursor at column `0`.
    pub fn move_first(&mut self)
        requires
            old(self).wf(),
        ensures
            final(self).wf(),
            final(self)@ == old(self)@,
            final(self).active() == 0,
            final(self).col() == 0,
            final(self).remembered() == 0,
            final(self).spec_modified() == old(self).spec_modified(),
    {
        while self.prelines.len() > 1
            invariant
                self.wf(),
                self@ == old(self)@,
                self.spec_modified() == old(self).spec_modified(),
            decreases self.prelines@.len(),
        {
            let ghost before = *self;
            let x = self.prelines.pop().unwrap();
            self.postlines.push(x);
            proof {
                before.lemma_shift_up(*self, x);
            }
        }
        self.move_start();
    }

    /// Makes the last line active and puts the cursor at column `0`.
    pub fn move_last(&mut self)
        requires
            old(self).wf(),
        ensures
            final(self).wf(),
            final(self)@ == old(self)@,
            final(self).active() == final(self)@.len() - 1,
            final(self).col() == 0,
            final(self).remembered() == 0,
            final(self).spec_modified() == old(self).spec_modified(),
    {
        while self.postlines.len() > 0
            invariant
                self.wf(),
                self@ == old(self)@,
                self.spec_modified() == old(self).spec_modified(),
            decreases self.postlines@.len(),
        {
            let ghost before = *self;
            let x = self.postlines.pop().unwrap();
            self.prelines.push(x);
            proof {
                before.lemma_shift_down(*self, x);
            }
        }
        self.move_start();
    }

    /// Deletes the character before the cursor. At column `0` of a line that
    /// has a predecessor, the active line's text is instead appended to that
    /// predecessor, the active line leaves the collection, and the cursor
    /// lands on the join point, whose column the result carries. At the very
    /// start of the document nothing happens.
    pub fn backspace(&mut self) -> (r: DEL)
        requires
            old(self).wf(),
            old(self).col() == 0 && old(self).active() > 0 ==> old(self)@[old(self).active()
                - 1].len() + old(self)@[old(self).active()].len() < MAX_LINE_LEN,
        ensures
            final(self).wf(),
            old(self).col() > 0 ==> {
                &&& r == DEL::Yes
                &&& final(self)@ == old(self)@.update(
                    old(self).active(),
                    old(self)@[old(self).active()].remove(old(self).col() - 1),
                )
                &&& final(self).active() == old(self).active()
                &&& final(self).col() == old(self).col() - 1
                &&& final(self).remembered() == final(self).col()
                &&& final(self).spec_modified()
            },
            old(self).col() == 0 && old(self).active() > 0 ==> {
                &&& r == DEL::NewLine(old(self)@[old(self).active() - 1].len() as usize)
                &&& final(self)@ == old(self)@.update(
                    old(self).active() - 1,
                    old(self)@[old(self).active() - 1] + old(self)@[old(self).active()],
                ).remove(old(self).active())
                &&& final(self).active() == old(self).active() - 1
                &&& final(self).col() == old(self)@[old(self).active() - 1].len()
                &&& final(self).remembered() == final(self).col()
                &&& final(self).spec_modified()
            },
            old(self).col() == 0 && old(self).active() == 0 ==> {
                &&& r == DEL::No
                &&& final(self)@ == old(self)@
                &&& final(self).active() == old(self).active()
                &&& final(self).col() == old(self).col()
                &&& final(self).remembered() == old(self).remembered()
                &&& final(self).spec_modified() == old(self).spec_modified()
            },
    {
        proof {
            old(self).lemma_active_line();
            old(self).lemma_wf();
        }
        let n = self.prelines.len();
        let mut l = self.prelines.pop().unwrap();
        let moved = l.backspace();
        if moved {
            self.col_mem = l.cursor();
            self.prelines.push(l);
            self.modified = true;
            proof {
                old(self).lemma_update_active(*self, l);
                assert(self.prelines@.last() == l);
            }
            DEL::Yes
        } else if n > 1 {
            let chars = l.text_chars();
            let mut p = self.prelines.pop().unwrap();
            proof {
                assert(old(self)@[old(self).active() - 1] == p@);
            }
            p.move_end();
            let k = p.len();
            p.append_text(&chars);
            p.seek(k);
            self.col_mem = k;
            self.prelines.push(p);
            self.modified = true;
            proof {
                assert(self.prelines@.last() == p);
                assert(final(self)@ =~= old(self)@.update(
                    old(self).active() - 1,
                    old(self)@[old(self).active() - 1] + old(self)@[old(self).active()],
                ).remove(old(self).active()));
            }
            DEL::NewLine(k)
        } else {
            self.prelines.push(l);
            proof {
                assert(self.prelines@.last() == l);
                assert(final(self)@ =~= old(self)@);
            }
            DEL::No
        }
    }

    /// Deletes the character after the cursor without moving it. At the end
    /// of a line that has a successor, that successor's text is instead
    /// appended to the active line and the successor leaves the collection;
    /// the result carries the column of the join point, where the cursor
    /// stays. At the very end of the document nothing happens.
    pub fn delete(&mut self) -> (r: DEL)
        requires
            old(self).wf(),
            old(self).col() == old(self)@[old(self).active()].len() && old(self).active() + 1 < old(
                self,
            )@.len() ==> old(self)@[old(self).active()].len() + old(self)@[old(self).active()
                + 1].len() < MAX_LINE_LEN,
        ensures
            final(self).wf(),
            old(self).col() < old(self)@[old(self).active()].len() ==> {
                &&& r == DEL::Yes
                &&& final(self)@ == old(self)@.update(
                    old(self).active(),
                    old(self)@[old(self).active()].remove(old(self).col()),
                )
                &&& final(self).active() == old(self).active()
                &&& final(self).col() == old(self).col()
                &&& final(self).remembered() == final(self).col()
                &&& final(self).spec_modified()
            },
            old(self).col() == old(self)@[old(self).active()].len() && old(self).active() + 1 < old(
                self,
            )@.len() ==> {
                &&& r == DEL::NewLine(old(self)@[old(self).active()].len() as usize)
                &&& final(self)@ == old(self)@.update(
                    old(self).active(),
                    old(self)@[old(self).active()] + old(self)@[old(self).active() + 1],
                ).remove(old(self).active() + 1)
                &&& final(self).active() == old(self).active()
                &&& final(self).col() == old(self)@[old(self).active()].len()
                &&& final(self).remembered() == final(self).col()
                &&& final(self).spec_modified()
            },
            old(self).col() == old(self)@[old(self).active()].len() && old(self).active() + 1
                == old(self)@.len() ==> {
                &&& r == DEL::No
                &&& final(self)@ == old(self)@
                &&& final(self).active() == old(self).active()
                &&& final(self).col() == old(self).col()
                &&& final(self).remembered() == old(self).remembered()
                &&& final(self).spec_modified() == old(self).spec_modified()
            },
    {
        proof {
            old(self).lemma_active_line();
            old(self).lemma_wf();
        }
        let mut l = self.prelines.pop().unwrap();
        let moved = l.delete();
        if moved {
            self.col_mem = l.cursor();
            self.prelines.push(l);
            self.modified = true;
            proof {
                old(self).lemma_update_active(*self, l);
                assert(self.prelines@.last() == l);
            }
            DEL::Yes
        } else if self.postlines.len() > 0 {
            let x = self.postlines.pop().unwrap();
            proof {
                assert(old(self)@[old(self).active() + 1] == x@);
            }
            let chars = x.text_chars();
            l.move_end();
            let k = l.len();
            l.append_text(&chars);
            l.seek(k);
            self.col_mem = k;
            self.prelines.push(l);
            self.modified = true;
            proof {
                assert(self.prelines@.last() == l);
                assert(final(self)@ =~= old(self)@.update(
                    old(self).active(),
                    old(self)@[old(self).active()] + old(self)@[old(self).active() + 1],
                ).remove(old(self).active() + 1));
            }
            DEL::NewLine(k)
        } else {
            self.prelines.push(l);
            proof {
                assert(self.prelines@.last() == l);
                assert(final(self)@ =~= old(self)@);
            }
            DEL::No
        }
    }

    /// Splits the active line at the cursor: the text after the cursor moves
    /// to a brand-new line inserted right after the active one, the active
    /// line keeps only the text before the cursor, and the cursor lands at
    /// column `0` of the new line. Returns the truncated line's text for the
    /// caller to redraw.
    pub fn insert_newline(&mut self) -> (r: String)
        requires
            old(self).wf(),
            old(self)@.len() < MAX_LINES,
            old(self)@[old(self).active()].len() < MAX_LINE_LEN,
        ensures
            final(self).wf(),
            r@ == old(self)@[old(self).active()].take(old(self).col()),
            final(self)@ == old(self)@.update(
                old(self).active(),
                old(self)@[old(self).active()].take(old(self).col()),
            ).insert(old(self).active() + 1, old(self)@[old(self).active()].skip(old(self).col())),
            final(self).active() == old(self).active() + 1,
            final(self).col() == 0,
            final(self).remembered() == 0,
            final(self).spec_modified(),
    {
        proof {
            old(self).lemma_active_line();
            old(self).lemma_wf();
        }
        let mut l = self.prelines.pop().unwrap();
        proof {
            l.lemma_len();
        }
        let glen = l.get_len();
        let mut newline_chars: Vec<char> = Vec::new();
        let mut i: usize = l.get_post() + 1;
        while i < glen
            invariant
                l.wf(),
                l.spec_post() < i <= l.spec_capacity(),
                glen == l.spec_capacity(),
                newline_chars@ == l@.subrange(
                    l.spec_cursor(),
                    l.spec_cursor() + i - l.spec_post() - 1,
                ),
            decreases glen - i,
        {
            proof {
                l.lemma_len();
            }
            newline_chars.push(l.get_text(i));
            i = i + 1;
            assert(newline_chars@ =~= l@.subrange(
                l.spec_cursor(),
                l.spec_cursor() + i - l.spec_post() - 1,
            ));
        }
        proof {
            l.lemma_len();
            assert(newline_chars@ =~= l@.skip(l.spec_cursor()));
        }
        l.set_post(glen - 1);
        proof {
            assert(l@ =~= old(self)@[old(self).active()].take(old(self).col()));
        }
        let prevline = l.show();
        self.prelines.push(l);
        let nl = Line::from_chars(&newline_chars);
        self.prelines.push(nl);
        self.col_mem = 0;
        self.modified = true;
        proof {
            assert(self.prelines@.last() == nl);
            assert(final(self)@ =~= old(self)@.update(
                old(self).active(),
                old(self)@[old(self).active()].take(old(self).col()),
            ).insert(old(self).active() + 1, old(self)@[old(self).active()].skip(old(self).col())));
        }
        prevline
    }

    /// Removes the active line if it is empty and the document has another
    /// line: the previous line becomes active, or the next one where no
    /// previous line exists, with the cursor at column `0`. Reports whether a
    /// previous line took over. On a nonempty active line, or in a one-line
    /// document, nothing happens.
    pub fn remove_empty_line(&mut self) -> (r: bool)
        requires
            old(self).wf(),
        ensures
            final(self).wf(),
            !(old(self)@[old(self).active()].len() == 0 && old(self)@.len() > 1) ==> r == false
                && *final(self) == *old(self),
            old(self)@[old(self).active()].len() == 0 && old(self)@.len() > 1 && old(self).active()
                > 0 ==> {
                &&& r == true
                &&& final(self)@ == old(self)@.remove(old(self).active())
                &&& final(self).active() == old(self).active() - 1
                &&& final(self).col() == 0
                &&& final(self).remembered() == 0
                &&& final(self).spec_modified()
            },
            old(self)@[old(self).active()].len() == 0 && old(self)@.len() > 1 && old(self).active()
                == 0 ==> {
                &&& r == false
                &&& final(self)@ == old(self)@.remove(0)
                &&& final(self).active() == 0
                &&& final(self).col() == 0
                &&& final(self).remembered() == 0
                &&& final(self).spec_modified()
            },
    {
        proof {
            old(self).lemma_active_line();
            old(self).lemma_wf();
        }
        let ll = self.linelen();
        let n = self.num_lines();
        if ll == 0 && n > 1 {
            let _removed = self.prelines.pop().unwrap();
            if self.prelines.len() == 0 {
                let mut x = self.postlines.pop().unwrap();
                x.move_start();
                self.prelines.push(x);
                self.col_mem = 0;
                self.modified = true;
                proof {
                    assert(self.prelines@.last() == x);
                    assert(final(self)@ =~= old(self)@.remove(0));
                }
                false
            } else {
                let mut p = self.prelines.pop().unwrap();
                p.move_start();
                self.prelines.push(p);
                self.col_mem = 0;
                self.modified = true;
                proof {
                    assert(self.prelines@.last() == p);
                    assert(final(self)@ =~= old(self)@.remove(old(self).active()));
                }
                true
            }
        } else {
            false
        }
    }

    /// Builds a document from raw text: each newline-delimited segment
    /// becomes one line, a final newline closes the last line rather than
    /// opening an empty one, and an empty text still yields one empty line.
    /// The first line is active with the cursor at column `0`, and the
    /// document counts as unmodified.
    pub fn from_content(content: &str) -> (r: SubEditor)
        requires
            content@.len() < MAX_LINE_LEN,
        ensures
            r.wf(),
            r@ == doc_of_content(content@),
            r.active() == 0,
            r.col() == 0,
            r.remembered() == 0,
            !r.spec_modified(),
    {
        let n = content.unicode_len();
        let mut done: Vec<Line> = Vec::new();
        let mut cur: Vec<char> = Vec::new();
        let mut i: usize = 0;
        proof {
            lemma_split_nonempty(content@);
            assert(content@.skip(0) =~= content@);
            assert(prepend_first(cur@, split_newlines(content@)) =~= split_newlines(content@));
            assert(line_views(done@) + split_newlines(content@) =~= split_newlines(content@));
        }
        while i < n
            invariant
                i <= n,
                n == content@.len(),
                n < MAX_LINE_LEN,
                cur@.len() <= i,
                done@.len() <= i,
                forall|k: int|
                    0 <= k < done@.len() ==> (#[trigger] done@[k]).wf() && done@[k].spec_cursor()
                        == 0,
                line_views(done@) + prepend_first(
                    cur@,
                    split_newlines(content@.skip(i as int)),
                ) == split_newlines(content@),
            decreases n - i,
        {
            proof {
                lemma_split_step(content@, i as int);
                lemma_split_nonempty(content@.skip(i as int + 1));
            }
            let ghost done0 = done@;
            let ghost cur0 = cur@;
            let ghost tail = split_newlines(content@.skip(i as int + 1));
            let c = content.get_char(i);
            if c == '\n' {
                let l = Line::from_chars(&cur);
                done.push(l);
                cur = Vec::new();
                proof {
                    assert((seq![Seq::<char>::empty()] + tail).skip(1) =~= tail);
                    assert(cur0 + Seq::<char>::empty() =~= cur0);
                    assert(prepend_first(cur0, split_newlines(content@.skip(i as int))) =~= seq![
                        cur0,
                    ] + tail);
                    assert(prepend_first(Seq::<char>::empty(), tail) =~= tail);
                    assert(line_views(done@) =~= line_views(done0).push(cur0));
                    assert(line_views(done@) + prepend_first(cur@, tail) =~= line_views(done0) + (
                    seq![cur0] + tail));
                }
            } else {
                cur.push(c);
                proof {
                    let first = seq![c] + tail[0];
                    assert((seq![first] + tail.skip(1)).skip(1) =~= tail.skip(1));
                    assert(cur0 + first =~= cur0.push(c) + tail[0]);
                    assert(prepend_first(cur0, split_newlines(content@.skip(i as int)))
                        =~= prepend_first(cur@, tail));
                }
            }
            i = i + 1;
        }
        proof {
            assert(content@.skip(n as int) =~= Seq::<char>::empty());
            assert(prepend_first(cur@, split_newlines(content@.skip(n as int))) =~= seq![cur@]);
        }
        let ends_nl = n > 0 && content.get_char(n - 1) == '\n';
        if !ends_nl {
            let l = Line::from_chars(&cur);
            done.push(l);
            proof {
                assert(line_views(done@) =~= split_newlines(content@));
                assert(line_views(done@) =~= doc_of_content(content@));
            }
        } else {
            proof {
                lemma_split_trailing(content@);
                assert(split_newlines(content@) =~= line_views(done@).push(cur@));
                assert(line_views(done@) =~= split_newlines(content@).drop_last());
                assert(line_views(done@) =~= doc_of_content(content@));
            }
        }
        let mut postlines: Vec<Line> = Vec::new();
        proof {
            assert(line_views(postlines@).reverse() =~= Seq::<Seq<char>>::empty());
            assert(line_views(done@) + line_views(postlines@).reverse() =~= doc_of_content(
                content@,
            ));
        }
        while done.len() > 1
            invariant
                done@.len() >= 1,
                done@.len() + postlines@.len() <= MAX_LINES,
                forall|k: int|
                    0 <= k < done@.len() ==> (#[trigger] done@[k]).wf() && done@[k].spec_cursor()
                        == 0,
                forall|k: int| 0 <= k < postlines@.len() ==> (#[trigger] postlines@[k]).wf(),
                line_views(done@) + line_views(postlines@).reverse() == doc_of_content(content@),
            decreases done@.len(),
        {
            let ghost done1 = done@;
            let ghost post1 = postlines@;
            let l = done.pop().unwrap();
            postlines.push(l);
            proof {
                assert(line_views(done@) + line_views(postlines@).reverse() =~= line_views(done1)
                    + line_views(post1).reverse());
            }
        }
        let r = SubEditor { prelines: done, postlines, col_mem: 0, modified: false };
        proof {
            assert(r@ == doc_of_content(content@));
            assert(r.col() == 0);
        }
        r
    }

    /// The whole document as raw text: every line followed by one newline,
    /// in document order. This is the text that saving writes out.
    pub fn content(&self) -> (r: String)
        requires
            self.wf(),
        ensures
            r@ == content_of_doc(self@),
    {
        let mut out: Vec<char> = Vec::new();
        let mut k: usize = 0;
        proof {
            assert(self@.take(0) =~= Seq::<Seq<char>>::empty());
        }
        while k < self.prelines.len()
            invariant
                self.wf(),
                k <= self.prelines@.len(),
                out@ == content_of_doc(self@.take(k as int)),
            decreases self.prelines@.len() - k,
        {
            let ghost out0 = out@;
            let mut cs = self.prelines[k].text_chars();
            out.append(&mut cs);
            out.push('\n');
            proof {
                assert(self@[k as int] == self.prelines@[k as int]@);
                assert(self@.take(k as int + 1) =~= self@.take(k as int).push(self@[k as int]));
                lemma_join_push(self@.take(k as int), self@[k as int]);
                assert(out@ =~= content_of_doc(self@.take(k as int)) + self@[k as int] + seq![
                    '\n',
                ]);
            }
            k = k + 1;
        }
        let mut j: usize = self.postlines.len();
        while j > 0
            invariant
                self.wf(),
                j <= self.postlines@.len(),
                out@ == content_of_doc(
                    self@.take(self.prelines@.len() + self.postlines@.len() - j),
                ),
            decreases j,
        {
            j = j - 1;
            let ghost taken = self.prelines@.len() + self.postlines@.len() - j - 1;
            let mut cs = self.postlines[j].text_chars();
            out.append(&mut cs);
            out.push('\n');
            proof {
                assert(self@[taken] == line_views(self.postlines@).reverse()[taken
                    - self.prelines@.len()]);
                assert(self@[taken] == self.postlines@[j as int]@);
                assert(self@.take(taken + 1) =~= self@.take(taken).push(self@[taken]));
                lemma_join_push(self@.take(taken), self@[taken]);
                assert(out@ =~= content_of_doc(self@.take(taken)) + self@[taken] + seq!['\n']);
            }
        }
        proof {
            assert(self@.take(self.prelines@.len() + self.postlines@.len() - 0) =~= self@);
        }
        crate::chars::string_of(&out)
    }

    /// One shared reference to every line, in document order.
    pub fn get_lines(&self) -> (r: Vec<&Line>)
        requires
            self.wf(),
        ensures
            r@.len() == self@.len(),
            forall|i: int| 0 <= i < r@.len() ==> (#[trigger] r@[i])@ == self@[i] && r@[i].wf(),
    {
        let mut r: Vec<&Line> = Vec::new();
        let mut i: usize = 0;
        while i < self.prelines.len()
            invariant
                self.wf(),
                i <= self.prelines@.len(),
                r@.len() == i,
                forall|k: int| 0 <= k < i ==> (#[trigger] r@[k])@ == self@[k] && r@[k].wf(),
            decreases self.prelines@.len() - i,
        {
            r.push(&self.prelines[i]);
            i = i + 1;
        }
        let mut j: usize = self.postlines.len();
        while j > 0
            invariant
                self.wf(),
                j <= self.postlines@.len(),
                r@.len() == self.prelines@.len() + self.postlines@.len() - j,
                forall|k: int| 0 <= k < r@.len() ==> (#[trigger] r@[k])@ == self@[k] && r@[k].wf(),
            decreases j,
        {
            j = j - 1;
            r.push(&self.postlines[j]);
            proof {
                let t = r@.len() - 1;
                assert(self@[t] == line_views(self.postlines@).reverse()[t
                    - self.prelines@.len()]);
            }
        }
        r
    }

    /// The lines after the active one, as stored: last document line first.
    pub fn get_post_lines(&self) -> (r: &Vec<Line>)
        requires
            self.wf(),
        ensures
            r@.len() == self@.len() - 1 - self.active(),
            forall|k: int| 0 <= k < r@.len() ==> (#[trigger] r@[k])@ == self@[self@.len() - 1 - k],
    {
        proof {
            assert forall|k: int| 0 <= k < self.postlines@.len() implies (
            #[trigger] self.postlines@[k])@ == self@[self@.len() - 1 - k] by {
                assert(self@[self@.len() - 1 - k] == line_views(self.postlines@).reverse()[self@.len()
                    - 1 - k - self.prelines@.len()]);
            }
        }
        &self.postlines
    }

    /// The text of the active line.
    pub fn show_curr_line(&mut self) -> (r: String)
        requires
            old(self).wf(),
        ensures
            *final(self) == *old(self),
            r@ == old(self)@[old(self).active()],
    {
        self.curr_line()
    }

    /// The text of the active line after the cursor.
    pub fn show_curr_post_line(&mut self) -> (r: String)
        requires
            old(self).wf(),
        ensures
            *final(self) == *old(self),
            r@ == old(self)@[old(self).active()].skip(old(self).col()),
    {
        proof {
            self.lemma_wf();
            self.lemma_active_line();
        }
        let idx = self.curr_line_num();
        let glen = self.prelines[idx].get_len();
        let mut v: Vec<char> = Vec::new();
        proof {
            self.prelines@[idx as int].lemma_len();
        }
        let mut i: usize = self.prelines[idx].get_post() + 1;
        while i < glen
            invariant
                self.wf(),
                idx == self.active(),
                self.prelines@[idx as int].spec_post() < i <= glen,
                glen == self.prelines@[idx as int].spec_capacity(),
                v@ == self.prelines@[idx as int]@.subrange(
                    self.prelines@[idx as int].spec_cursor(),
                    self.prelines@[idx as int].spec_cursor() + i - self.prelines@[idx as int].spec_post()
                        - 1,
                ),
            decreases glen - i,
        {
            proof {
                self.prelines@[idx as int].lemma_len();
            }
            v.push(self.prelines[idx].get_text(i));
            i = i + 1;
            assert(v@ =~= self.prelines@[idx as int]@.subrange(
                self.prelines@[idx as int].spec_cursor(),
                self.prelines@[idx as int].spec_cursor() + i - self.prelines@[idx as int].spec_post()
                    - 1,
            ));
        }
        proof {
            self.prelines@[idx as int].lemma_len();
            assert(v@ =~= self@[self.active()].skip(self.col()));
        }
        crate::chars::string_of(&v)
    }

    /// A dump of the editing state: the 1-based line and column of the
    /// cursor on one line, then every line of the document with its 1-based
    /// number and a separator.
    pub fn show(&self) -> (r: String)
        requires
            self.wf(),
        ensures
            r@ == show_spec(self@, self.active(), self.col()),
    {
        proof {
            self.lemma_wf();
            self.lemma_active_line();
            self.prelines@.last().lemma_len();
        }
        let mut v: Vec<char> = Vec::new();
        v.push('l');
        v.push('i');
        v.push('n');
        v.push('e');
        v.push(':');
        v.push(' ');
        let a1 = self.active_line_number();
        let mut d1 = crate::num::dec_chars(a1);
        v.append(&mut d1);
        v.push(',');
        v.push(' ');
        v.push('c');
        v.push('u');
        v.push('r');
        v.push('s');
        v.push('o');
        v.push('r');
        v.push(':');
        v.push(' ');
        let c = self.cursor();
        let mut d2 = crate::num::dec_chars(c + 1);
        v.append(&mut d2);
        v.push('\n');
        let ghost doc = self@;
        proof {
            assert(v@ =~= seq!['l', 'i', 'n', 'e', ':', ' '] + crate::num::dec_str(a1 as int) + seq![
                ',',
                ' ',
                'c',
                'u',
                'r',
                's',
                'o',
                'r',
                ':',
                ' ',
            ] + crate::num::dec_str(c + 1) + seq!['\n']);
            assert(show_spec(doc, self.active(), self.col()) =~= v@ + show_lines_spec(doc, 0));
        }
        let lines = self.get_lines();
        let mut k: usize = 0;
        while k < lines.len()
            invariant
                self.wf(),
                doc == self@,
                k <= lines@.len(),
                lines@.len() == doc.len(),
                doc.len() <= MAX_LINES,
                forall|i: int|
                    0 <= i < lines@.len() ==> (#[trigger] lines@[i])@ == doc[i] && lines@[i].wf(),
                show_spec(doc, self.active(), self.col()) == v@ + show_lines_spec(doc, k as int),
            decreases lines@.len() - k,
        {
            let ghost v0 = v@;
            let mut d = crate::num::dec_chars(k + 1);
            v.append(&mut d);
            v.push(' ');
            v.push('|');
            v.push(' ');
            let mut cs = lines[k].text_chars();
            v.append(&mut cs);
            proof {
                let num = crate::num::dec_str(k as int + 1);
                let sep = seq![' ', '|', ' '];
                let rest = show_lines_spec(doc, k as int + 1);
                assert(show_lines_spec(doc, k as int) == num + sep + doc[k as int] + rest);
                assert(v@ =~= v0 + (num + sep + doc[k as int]));
                vstd::seq_lib::lemma_concat_associative(v0, num + sep + doc[k as int], rest);
            }
            k = k + 1;
        }
        proof {
            assert(show_lines_spec(doc, doc.len() as int) == Seq::<char>::empty());
            assert(v@ =~= v@ + show_lines_spec(doc, doc.len() as int));
        }
        crate::chars::string_of(&v)
    }

    /// Whether any edit has been applied since load or save.
    pub fn is_modified(&self) -> (r: bool)
        ensures
            r == self.spec_modified(),
    {
        self.modified
    }

    /// Records that the document was written out: it counts as unmodified
    /// again until the next edit.
    pub fn mark_saved(&mut self)
        requires
            old(self).wf(),
        ensures
            final(self).wf(),
            final(self)@ == old(self)@,
            final(self).active() == old(self).active(),
            final(self).col() == old(self).col(),
            final(self).remembered() == old(self).remembered(),
            !final(self).spec_modified(),
    {
        self.modified = false;
    }
}

} // verus!
