use vstd::prelude::*;

verus! {

/// A line may not grow to this many characters; the bound keeps the gap
/// buffer's capacity arithmetic (which doubles the backing vector) far away
/// from `usize` overflow.
pub const MAX_LINE_LEN: usize = usize::MAX / 8;

/// Whether a number is a power of two.
pub open spec fn is_pow2(c: int) -> bool
    decreases c,
{
    if c <= 0 {
        false
    } else if c == 1 {
        true
    } else {
        c % 2 == 0 && is_pow2(c / 2)
    }
}

/// The capacity a fresh line gets for text of the given length: the smallest
/// power of two that is at least thirty-two and leaves at least one free
/// slot above the text, so that the gap is never empty.
pub open spec fn fresh_capacity(c: int, n: int) -> bool {
    &&& is_pow2(c)
    &&& 32 <= c
    &&& n < c
    &&& (c == 32 || c / 2 <= n)
}

/// Column after one step left: one less, except at the line start.
pub open spec fn left_of(c: int) -> int {
    if c > 0 {
        c - 1
    } else {
        c
    }
}

/// Column after one step right on a line of the given length: one more,
/// except at the line end.
pub open spec fn right_of(c: int, len: int) -> int {
    if c < len {
        c + 1
    } else {
        c
    }
}

/// Text after inserting each character of `cs`, one after another, into `t`,
/// the first at column `c` and every next one at the column the previous
/// insert advanced the cursor to.
pub open spec fn insert_seq(t: Seq<char>, c: int, cs: Seq<char>) -> Seq<char>
    decreases cs.len(),
{
    if cs.len() == 0 {
        t
    } else {
        insert_seq(t.insert(c, cs[0]), c + 1, cs.skip(1))
    }
}

/// A run of inserts at an advancing cursor yields exactly the inserted
/// characters, in order, as one block at the starting column. In particular a
/// fresh empty line filled by `insert` calls reads back as the characters
/// inserted in order, however often the buffer grew along the way.
pub proof fn lemma_inserts_in_order(t: Seq<char>, c: int, cs: Seq<char>)
    requires
        0 <= c <= t.len(),
    ensures
        insert_seq(t, c, cs) == t.take(c) + cs + t.skip(c),
    decreases cs.len(),
{
    if cs.len() == 0 {
        assert(insert_seq(t, c, cs) =~= t.take(c) + cs + t.skip(c));
    } else {
        let t1 = t.insert(c, cs[0]);
        lemma_inserts_in_order(t1, c + 1, cs.skip(1));
        assert(t1.take(c + 1) =~= t.take(c).push(cs[0]));
        assert(t1.skip(c + 1) =~= t.skip(c));
        assert(t.take(c).push(cs[0]) + cs.skip(1) + t.skip(c) =~= t.take(c) + cs + t.skip(c));
    }
}

/// The length after a run of inserts is the starting length plus the number
/// of characters inserted, whatever the capacity did meanwhile.
pub proof fn lemma_insert_count(t: Seq<char>, c: int, cs: Seq<char>)
    requires
        0 <= c <= t.len(),
    ensures
        insert_seq(t, c, cs).len() == t.len() + cs.len(),
{
    lemma_inserts_in_order(t, c, cs);
}

/// One step left then one step right (or the other way round) from any valid
/// column restores the column; no cursor motion ever changes the text, so the
/// pair of moves is a no-op on the whole line.
pub proof fn lemma_move_inverse(c: int, len: int)
    requires
        0 <= c <= len,
    ensures
        c > 0 ==> right_of(left_of(c), len) == c,
        c < len ==> left_of(right_of(c, len)) == c,
{
}

/// A single editable line of text, stored as a gap buffer.
///
/// The characters before the cursor sit at the bottom of the backing vector
/// and the characters after the cursor at the top, in text order; the slots
/// between the two regions form one contiguous free gap, kept at the cursor
/// so that a local insert or delete is a single write.
pub struct Line {
    /// Number of characters before the cursor; equals the cursor column.
    pre: usize,
    /// Index of the last slot of the gap; the characters after the cursor
    /// occupy `post + 1 ..` up to the capacity.
    post: usize,
    /// The backing vector; `pre ..= post` is the gap.
    text: Vec<char>,
}

impl View for Line {
    type V = Seq<char>;

    /// The logical text: the region before the gap followed by the region
    /// after it.
    closed spec fn view(&self) -> Seq<char> {
        self.text@.subrange(0, self.pre as int)
            + self.text@.subrange(self.post as int + 1, self.text@.len() as int)
    }
}

impl Line {
    /// The gap-buffer invariant: a nonempty gap lies inside the backing
    /// vector, whose capacity never drops under its initial size.
    pub closed spec fn wf(self) -> bool {
        &&& self.pre <= self.post
        &&& (self.post as int) < self.text@.len()
        &&& 32 <= self.text@.len()
        &&& self.text@.len() <= usize::MAX
    }

    /// The cursor column, `0`-based; characters at columns below it form the
    /// pre region.
    pub closed spec fn spec_cursor(self) -> int {
        self.pre as int
    }

    /// Index of the last slot of the gap.
    pub closed spec fn spec_post(self) -> int {
        self.post as int
    }

    /// Capacity of the backing vector.
    pub closed spec fn spec_capacity(self) -> int {
        self.text@.len() as int
    }

    /// How the logical length shows in the representation, and that the
    /// cursor never passes the end of the text.
    pub proof fn lemma_len(self)
        requires
            self.wf(),
        ensures
            self@.len() == self.spec_cursor() + self.spec_capacity() - 1 - self.spec_post(),
            0 <= self.spec_cursor() <= self@.len(),
            self.spec_cursor() <= self.spec_post() < self.spec_capacity(),
            self.spec_capacity() <= usize::MAX,
    {
    }

    /// An empty line: all thirty-two slots are gap and the cursor is at
    /// column `0`.
    pub fn init() -> (r: Line)
        ensures
            r.wf(),
            r@ == Seq::<char>::empty(),
            r.spec_cursor() == 0,
            r.spec_capacity() == 32,
    {
        let r = Line { pre: 0, post: 31, text: blank_vec(32) };
        assert(r@ =~= Seq::<char>::empty());
        r
    }

    /// A line holding the given text, cursor at column `0`. The capacity is
    /// the smallest power of two that is at least thirty-two and leaves room
    /// for a free gap above the text.
    pub fn init_with_line(newline: String) -> (r: Line)
        requires
            newline@.len() < MAX_LINE_LEN,
        ensures
            r.wf(),
            r@ == newline@,
            r.spec_cursor() == 0,
            fresh_capacity(r.spec_capacity(), newline@.len() as int),
    {
        let s = newline.as_str();
        let slen = s.unicode_len();
        let mut v: Vec<char> = Vec::new();
        let mut i: usize = 0;
        while i < slen
            invariant
                i <= slen,
                slen == newline@.len(),
                s@ == newline@,
                v@ == newline@.subrange(0, i as int),
            decreases slen - i,
        {
            v.push(s.get_char(i));
            i = i + 1;
            assert(v@ =~= newline@.subrange(0, i as int));
        }
        assert(v@ =~= newline@);
        Line::from_chars(&v)
    }

    /// A line holding the given characters, cursor at column `0`. The
    /// capacity is the smallest power of two that is at least thirty-two and
    /// leaves room for a free gap above the text.
    pub(crate) fn from_chars(v: &Vec<char>) -> (r: Line)
        requires
            v@.len() < MAX_LINE_LEN,
        ensures
            r.wf(),
            r@ == v@,
            r.spec_cursor() == 0,
            fresh_capacity(r.spec_capacity(), v@.len() as int),
    {
        let slen = v.len();
        let mut cap: usize = 32;
        proof {
            reveal_with_fuel(is_pow2, 7);
            assert(is_pow2(32));
        }
        while cap <= slen
            invariant
                32 <= cap,
                cap <= 2 * MAX_LINE_LEN,
                slen == v@.len(),
                slen < MAX_LINE_LEN,
                is_pow2(cap as int),
                cap == 32 || cap / 2 <= slen,
            decreases (if cap <= slen {
                slen + 1 - cap
            } else {
                0
            }),
        {
            cap = cap * 2;
            assert(is_pow2(cap as int));
        }
        assert(fresh_capacity(cap as int, slen as int));
        let mut text = blank_vec(cap);
        let offset = cap - slen;
        let mut i: usize = 0;
        while i < slen
            invariant
                text@.len() == cap,
                cap == offset + slen,
                1 <= offset,
                slen == v@.len(),
                i <= slen,
                forall|k: int| 0 <= k < i ==> text@[offset + k] == v@[k],
            decreases slen - i,
        {
            let c = v[i];
            let idx = offset + i;
            text[idx] = c;
            i = i + 1;
        }
        let r = Line { pre: 0, post: offset - 1, text };
        assert(r@ =~= v@);
        r
    }

    /// Total character count, excluding the gap.
    pub fn len(&self) -> (r: usize)
        requires
            self.wf(),
        ensures
            r == self@.len(),
    {
        self.pre + (self.text.len() - 1 - self.post)
    }

    /// The cursor column, `0`-based.
    pub fn cursor(&self) -> (r: usize)
        ensures
            r == self.spec_cursor(),
    {
        self.pre
    }

    /// Number of characters before the gap.
    pub fn get_pre(&self) -> (r: usize)
        ensures
            r == self.spec_cursor(),
    {
        self.pre
    }

    /// Index of the last slot of the gap.
    pub fn get_post(&self) -> (r: usize)
        ensures
            r == self.spec_post(),
    {
        self.post
    }

    /// Capacity of the backing vector.
    pub fn get_len(&self) -> (r: usize)
        ensures
            r == self.spec_capacity(),
    {
        self.text.len()
    }

    /// The character at the given column of the logical text.
    pub fn char_at(&self, i: usize) -> (r: char)
        requires
            self.wf(),
            i < self@.len(),
        ensures
            r == self@[i as int],
    {
        proof {
            self.lemma_len();
        }
        if i < self.pre {
            self.text[i]
        } else {
            self.text[i + (self.post + 1 - self.pre)]
        }
    }

    /// Reads one slot of the backing vector. Below the gap it holds the
    /// character at that column; above the gap, the character the given
    /// number of slots from the line's end.
    pub fn get_text(&self, i: usize) -> (r: char)
        requires
            self.wf(),
            i < self.spec_capacity(),
        ensures
            i < self.spec_cursor() ==> r == self@[i as int],
            i > self.spec_post() ==> r == self@[i - self.spec_post() - 1 + self.spec_cursor()],
    {
        self.text[i]
    }

    /// Raises the gap's upper bound, discarding the characters between the
    /// old bound and the new one: the first `newpost - old post` characters
    /// after the cursor fall out of the line. Only raising is allowed:
    /// lowering the bound would turn stale gap slots into text, which no
    /// contract could pin down.
    pub fn set_post(&mut self, newpost: usize)
        requires
            old(self).wf(),
            old(self).spec_post() <= newpost < old(self).spec_capacity(),
        ensures
            final(self).wf(),
            final(self).spec_cursor() == old(self).spec_cursor(),
            final(self).spec_post() == newpost,
            final(self).spec_capacity() == old(self).spec_capacity(),
            final(self)@ == old(self)@.take(old(self).spec_cursor()) + old(self)@.skip(
                old(self).spec_cursor() + newpost - old(self).spec_post(),
            ),
    {
        self.post = newpost;
        assert(final(self)@ =~= old(self)@.take(old(self).spec_cursor()) + old(self)@.skip(
            old(self).spec_cursor() + newpost - old(self).spec_post(),
        ));
    }

    /// Ensures the gap can take at least one more character: when fewer than
    /// five slots are free the capacity doubles and the post region moves to
    /// the new upper bound, and otherwise nothing changes at all. The text,
    /// the cursor and the order of every character are untouched either way.
    pub fn adjust_buffer(&mut self)
        requires
            old(self).wf(),
            old(self)@.len() < MAX_LINE_LEN,
        ensures
            final(self).wf(),
            final(self)@ == old(self)@,
            final(self).spec_cursor() == old(self).spec_cursor(),
            final(self).spec_post() - final(self).spec_cursor() >= 4,
            old(self).spec_post() - old(self).spec_cursor() < 4 ==> final(self).spec_capacity()
                == 2 * old(self).spec_capacity() && final(self).spec_post() == old(self).spec_post()
                + old(self).spec_capacity(),
            old(self).spec_post() - old(self).spec_cursor() >= 4 ==> *final(self) == *old(self),
    {
        let free = self.post + 1 - self.pre;
        if free <= 4 {
            let cap = self.text.len();
            let post_len = cap - 1 - self.post;
            proof {
                self.lemma_len();
            }
            let mut i: usize = 0;
            while i < cap
                invariant
                    i <= cap,
                    self.text@.len() == cap + i,
                    self.text@.len() <= usize::MAX,
                    self.text@.subrange(0, cap as int) == old(self).text@,
                    self.pre == old(self).pre,
                    self.post == old(self).post,
                    cap == old(self).text@.len(),
                    cap + cap <= usize::MAX,
                decreases cap - i,
            {
                self.text.push('\0');
                i = i + 1;
                assert(self.text@.subrange(0, cap as int) =~= old(self).text@);
            }
            let mut j: usize = 0;
            while j < post_len
                invariant
                    j <= post_len,
                    post_len == cap - 1 - self.post,
                    self.text@.len() == 2 * cap,
                    cap + cap <= usize::MAX,
                    self.text@.subrange(0, cap as int) == old(self).text@,
                    self.pre == old(self).pre,
                    self.post == old(self).post,
                    cap == old(self).text@.len(),
                    self.post < cap,
                    forall|k: int|
                        0 <= k < j ==> #[trigger] self.text@[2 * cap - 1 - k] == old(
                            self,
                        ).text@[cap - 1 - k],
                decreases post_len - j,
            {
                let c = self.text[cap - 1 - j];
                let idx = 2 * cap - 1 - j;
                self.text[idx] = c;
                j = j + 1;
                assert(self.text@.subrange(0, cap as int) =~= old(self).text@);
            }
            self.post = self.post + cap;
            proof {
                let opre = old(self).pre as int;
                let opost = old(self).post as int;
                let ocap = cap as int;
                let ot = old(self).text@;
                let nt = self.text@;
                assert forall|k: int| 0 <= k < ocap implies nt[k] == ot[k] by {
                    assert(nt.subrange(0, ocap)[k] == nt[k]);
                }
                assert(self@.len() == old(self)@.len());
                assert forall|x: int| 0 <= x < self@.len() implies self@[x] == old(self)@[x] by {
                    if x < opre {
                        assert(nt[x] == ot[x]);
                    } else {
                        let m = x - opre;
                        let k = ocap - 2 - opost - m;
                        assert(nt[2 * ocap - 1 - k] == ot[ocap - 1 - k]);
                        assert(self@[x] == nt[opost + ocap + 1 + m]);
                        assert(old(self)@[x] == ot[opost + 1 + m]);
                    }
                }
                assert(self@ =~= old(self)@);
            }
        }
    }

    /// Writes the given character at the cursor, growing the buffer first if
    /// the gap is critically small; the cursor advances past it.
    pub fn insert(&mut self, newchar: char)
        requires
            old(self).wf(),
            old(self)@.len() < MAX_LINE_LEN,
        ensures
            final(self).wf(),
            final(self)@ == old(self)@.insert(old(self).spec_cursor(), newchar),
            final(self).spec_cursor() == old(self).spec_cursor() + 1,
    {
        self.adjust_buffer();
        let ghost mid = *self;
        let p = self.pre;
        self.text[p] = newchar;
        self.pre = self.pre + 1;
        proof {
            assert(final(self)@ =~= mid@.insert(mid.spec_cursor(), newchar));
            assert(mid@.insert(mid.spec_cursor(), newchar) =~= old(self)@.insert(
                old(self).spec_cursor(),
                newchar,
            ));
        }
    }

    /// Deletes the character immediately before the cursor, if any, by
    /// widening the gap downward; reports whether one was deleted.
    pub fn backspace(&mut self) -> (r: bool)
        requires
            old(self).wf(),
        ensures
            final(self).wf(),
            r == (old(self).spec_cursor() > 0),
            r ==> final(self)@ == old(self)@.remove(old(self).spec_cursor() - 1)
                && final(self).spec_cursor() == old(self).spec_cursor() - 1,
            !r ==> *final(self) == *old(self),
    {
        if self.pre > 0 {
            self.pre = self.pre - 1;
            proof {
                assert(final(self)@ =~= old(self)@.remove(old(self).spec_cursor() - 1));
            }
            true
        } else {
            false
        }
    }

    /// Deletes the character immediately after the cursor, if any, by
    /// widening the gap upward; the cursor does not move. Reports whether one
    /// was deleted.
    pub fn delete(&mut self) -> (r: bool)
        requires
            old(self).wf(),
        ensures
            final(self).wf(),
            r == (old(self).spec_cursor() < old(self)@.len()),
            r ==> final(self)@ == old(self)@.remove(old(self).spec_cursor())
                && final(self).spec_cursor() == old(self).spec_cursor(),
            !r ==> *final(self) == *old(self),
    {
        proof {
            self.lemma_len();
        }
        if self.post + 1 < self.text.len() {
            self.post = self.post + 1;
            proof {
                assert(final(self)@ =~= old(self)@.remove(old(self).spec_cursor()));
            }
            true
        } else {
            false
        }
    }

    /// Moves the cursor one column left by carrying the crossed character
    /// from the pre side of the gap to the post side; reports whether it
    /// moved (false at the line start).
    pub fn move_l(&mut self) -> (r: bool)
        requires
            old(self).wf(),
        ensures
            final(self).wf(),
            final(self)@ == old(self)@,
            final(self).spec_cursor() == left_of(old(self).spec_cursor()),
            r == (old(self).spec_cursor() > 0),
    {
        if self.pre > 0 {
            self.pre = self.pre - 1;
            let c = self.text[self.pre];
            let p = self.post;
            self.text[p] = c;
            self.post = self.post - 1;
            proof {
                assert(final(self)@ =~= old(self)@);
            }
            true
        } else {
            false
        }
    }

    /// Moves the cursor one column right by carrying the crossed character
    /// from the post side of the gap to the pre side; reports whether it
    /// moved (false at the line end).
    pub fn move_r(&mut self) -> (r: bool)
        requires
            old(self).wf(),
        ensures
            final(self).wf(),
            final(self)@ == old(self)@,
            final(self).spec_cursor() == right_of(old(self).spec_cursor(), old(self)@.len() as int),
            r == (old(self).spec_cursor() < old(self)@.len()),
    {
        proof {
            self.lemma_len();
        }
        if self.post + 1 < self.text.len() {
            self.post = self.post + 1;
            let c = self.text[self.post];
            let p = self.pre;
            self.text[p] = c;
            self.pre = self.pre + 1;
            proof {
                assert(final(self)@ =~= old(self)@);
            }
            true
        } else {
            false
        }
    }

    /// Steps the cursor to column `0`.
    pub fn move_start(&mut self)
        requires
            old(self).wf(),
        ensures
            final(self).wf(),
            final(self)@ == old(self)@,
            final(self).spec_cursor() == 0,
    {
        while self.pre > 0
            invariant
                self.wf(),
                self@ == old(self)@,
            decreases self.pre,
        {
            self.move_l();
        }
    }

    /// Steps the cursor to the line's end.
    pub fn move_end(&mut self)
        requires
            old(self).wf(),
        ensures
            final(self).wf(),
            final(self)@ == old(self)@,
            final(self).spec_cursor() == old(self)@.len(),
    {
        while self.post + 1 < self.text.len()
            invariant
                self.wf(),
                self@ == old(self)@,
            decreases self@.len() - self.spec_cursor(),
        {
            proof {
                self.lemma_len();
            }
            self.move_r();
        }
        proof {
            self.lemma_len();
        }
    }

    /// Steps the cursor, one column at a time as the gap only moves by one,
    /// to the given column, or to the line's end if the column lies past it.
    pub fn seek(&mut self, target: usize)
        requires
            old(self).wf(),
        ensures
            final(self).wf(),
            final(self)@ == old(self)@,
            final(self).spec_cursor() == vstd::math::min(target as int, old(self)@.len() as int),
    {
        while self.pre > target
            invariant
                self.wf(),
                self@ == old(self)@,
            decreases self.pre,
        {
            self.move_l();
        }
        while self.pre < target && self.post + 1 < self.text.len()
            invariant
                self.wf(),
                self@ == old(self)@,
                self.spec_cursor() <= target,
            decreases self@.len() - self.spec_cursor(),
        {
            proof {
                self.lemma_len();
            }
            self.move_r();
        }
        proof {
            self.lemma_len();
        }
    }

    /// The logical text as a vector of characters, in order.
    pub(crate) fn text_chars(&self) -> (r: Vec<char>)
        requires
            self.wf(),
        ensures
            r@ == self@,
    {
        let mut r: Vec<char> = Vec::new();
        let mut i: usize = 0;
        while i < self.pre
            invariant
                self.wf(),
                i <= self.pre,
                r@ == self.text@.subrange(0, i as int),
            decreases self.pre - i,
        {
            r.push(self.text[i]);
            i = i + 1;
            assert(r@ =~= self.text@.subrange(0, i as int));
        }
        let mut j: usize = self.post + 1;
        while j < self.text.len()
            invariant
                self.wf(),
                self.post < j <= self.text@.len(),
                r@ == self.text@.subrange(0, self.pre as int) + self.text@.subrange(
                    self.post as int + 1,
                    j as int,
                ),
            decreases self.text@.len() - j,
        {
            r.push(self.text[j]);
            j = j + 1;
            assert(r@ =~= self.text@.subrange(0, self.pre as int) + self.text@.subrange(
                self.post as int + 1,
                j as int,
            ));
        }
        assert(r@ =~= self@);
        r
    }

    /// The logical text, pre region in order then post region, as a string.
    pub fn show(&self) -> (r: String)
        requires
            self.wf(),
        ensures
            r@ == self@,
    {
        let v = self.text_chars();
        crate::chars::string_of(&v)
    }

    /// Appends the given characters at the end of the line; the cursor must
    /// stand at the end and stays there.
    pub(crate) fn append_text(&mut self, v: &Vec<char>)
        requires
            old(self).wf(),
            old(self)@.len() + v@.len() < MAX_LINE_LEN,
            old(self).spec_cursor() == old(self)@.len(),
        ensures
            final(self).wf(),
            final(self)@ == old(self)@ + v@,
            final(self).spec_cursor() == final(self)@.len(),
    {
        let mut i: usize = 0;
        while i < v.len()
            invariant
                self.wf(),
                i <= v@.len(),
                self@ == old(self)@ + v@.subrange(0, i as int),
                self.spec_cursor() == self@.len(),
                old(self)@.len() + v@.len() < MAX_LINE_LEN,
            decreases v@.len() - i,
        {
            let ghost before = self@;
            self.insert(v[i]);
            i = i + 1;
            proof {
                assert(before.insert(before.len() as int, v@[i - 1]) =~= before.push(v@[i - 1]));
                assert(self@ =~= old(self)@ + v@.subrange(0, i as int));
            }
        }
        assert(self@ =~= old(self)@ + v@);
    }
}

/// A vector of the given length, all slots blank.
fn blank_vec(n: usize) -> (r: Vec<char>)
    ensures
        r@.len() == n,
{
    let mut r: Vec<char> = Vec::new();
    let mut i: usize = 0;
    while i < n
        invariant
            r@.len() == i,
            i <= n,
        decreases n - i,
    {
        r.push('\0');
        i = i + 1;
    }
    r
}

} // verus!
