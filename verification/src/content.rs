use vstd::prelude::*;

verus! {

/// Raw newline split of a text: the segments between newline characters, one
/// segment more than there are newlines.
pub open spec fn split_newlines(c: Seq<char>) -> Seq<Seq<char>>
    decreases c.len(),
{
    if c.len() == 0 {
        seq![Seq::<char>::empty()]
    } else if c[0] == '\n' {
        seq![Seq::<char>::empty()] + split_newlines(c.skip(1))
    } else {
        let rest = split_newlines(c.skip(1));
        seq![seq![c[0]] + rest[0]] + rest.skip(1)
    }
}

/// The lines a loaded text splits into: newline-delimited segments, where a
/// final newline closes the last line rather than opening an empty one, and
/// an empty text still gives one empty line.
pub open spec fn doc_of_content(c: Seq<char>) -> Seq<Seq<char>> {
    let s = split_newlines(c);
    if c.len() > 0 && c.last() == '\n' {
        s.drop_last()
    } else {
        s
    }
}

/// The text a document serializes to: every line followed by one newline.
pub open spec fn content_of_doc(ls: Seq<Seq<char>>) -> Seq<char>
    decreases ls.len(),
{
    if ls.len() == 0 {
        Seq::empty()
    } else {
        ls[0] + seq!['\n'] + content_of_doc(ls.skip(1))
    }
}

/// The raw split never has fewer than one segment.
pub(crate) proof fn lemma_split_nonempty(c: Seq<char>)
    ensures
        split_newlines(c).len() >= 1,
    decreases c.len(),
{
}

/// Serializing the raw split restores the text plus one final newline.
proof fn lemma_join_split(c: Seq<char>)
    ensures
        content_of_doc(split_newlines(c)) == c.push('\n'),
    decreases c.len(),
{
    if c.len() == 0 {
        let s = split_newlines(c);
        assert(s.skip(1) =~= Seq::<Seq<char>>::empty());
        assert(content_of_doc(s.skip(1)) == Seq::<char>::empty());
        assert(content_of_doc(s) == s[0] + seq!['\n'] + content_of_doc(s.skip(1)));
        assert(content_of_doc(s) =~= c.push('\n'));
    } else if c[0] == '\n' {
        lemma_join_split(c.skip(1));
        let tail = split_newlines(c.skip(1));
        let ls = seq![Seq::<char>::empty()] + tail;
        assert(ls.skip(1) =~= tail);
        assert(content_of_doc(ls) =~= c.push('\n'));
    } else {
        lemma_join_split(c.skip(1));
        let rest = split_newlines(c.skip(1));
        lemma_split_nonempty(c.skip(1));
        let ls = seq![seq![c[0]] + rest[0]] + rest.skip(1);
        assert(ls.skip(1) =~= rest.skip(1));
        assert(rest =~= seq![rest[0]] + rest.skip(1));
        assert(content_of_doc(rest) == rest[0] + seq!['\n'] + content_of_doc(rest.skip(1)));
        assert(content_of_doc(ls) == (seq![c[0]] + rest[0]) + seq!['\n'] + content_of_doc(
            rest.skip(1),
        ));
        assert(content_of_doc(ls) =~= seq![c[0]] + content_of_doc(rest));
        assert(seq![c[0]] + c.skip(1).push('\n') =~= c.push('\n'));
    }
}

/// A text ending in a newline splits into at least two raw segments, the last
/// of them empty.
pub(crate) proof fn lemma_split_trailing(c: Seq<char>)
    requires
        c.len() > 0,
        c.last() == '\n',
    ensures
        split_newlines(c).len() >= 2,
        split_newlines(c).last() == Seq::<char>::empty(),
    decreases c.len(),
{
    if c.len() == 1 {
        assert(c[0] == '\n');
        assert(c.skip(1) =~= Seq::<char>::empty());
        assert(split_newlines(c.skip(1)) == seq![Seq::<char>::empty()]);
        let ls = seq![Seq::<char>::empty()] + split_newlines(c.skip(1));
        assert(split_newlines(c) == ls);
        assert(ls.len() == 2);
        assert(ls.last() == Seq::<char>::empty());
    } else if c[0] == '\n' {
        assert(c.skip(1).last() == c.last());
        lemma_split_trailing(c.skip(1));
        let tail = split_newlines(c.skip(1));
        let ls = seq![Seq::<char>::empty()] + tail;
        assert(ls.last() == tail.last());
    } else {
        assert(c.skip(1).last() == c.last());
        lemma_split_trailing(c.skip(1));
        let rest = split_newlines(c.skip(1));
        let ls = seq![seq![c[0]] + rest[0]] + rest.skip(1);
        assert(ls.last() == rest.last());
    }
}

/// Serializing one more line appends that line and one newline.
pub(crate) proof fn lemma_join_push(ls: Seq<Seq<char>>, l: Seq<char>)
    ensures
        content_of_doc(ls.push(l)) == content_of_doc(ls) + l + seq!['\n'],
    decreases ls.len(),
{
    if ls.len() == 0 {
        assert(ls.push(l)[0] =~= l);
        assert(ls.push(l).skip(1) =~= Seq::<Seq<char>>::empty());
        assert(content_of_doc(ls.push(l).skip(1)) == Seq::<char>::empty());
        assert(content_of_doc(ls.push(l)) == l + seq!['\n'] + Seq::<char>::empty());
        assert(content_of_doc(ls) == Seq::<char>::empty());
        assert(l + seq!['\n'] + Seq::<char>::empty() =~= Seq::<char>::empty() + l + seq!['\n']);
    } else {
        lemma_join_push(ls.skip(1), l);
        assert(ls.push(l).skip(1) =~= ls.skip(1).push(l));
        assert(ls.push(l)[0] == ls[0]);
        assert(content_of_doc(ls.push(l)) == ls[0] + seq!['\n'] + content_of_doc(
            ls.skip(1).push(l),
        ));
        assert(content_of_doc(ls.push(l)) == ls[0] + seq!['\n'] + (content_of_doc(ls.skip(1)) + l
            + seq!['\n']));
        assert(content_of_doc(ls) == ls[0] + seq!['\n'] + content_of_doc(ls.skip(1)));
        vstd::seq_lib::lemma_concat_associative(
            ls[0] + seq!['\n'],
            content_of_doc(ls.skip(1)) + l,
            seq!['\n'],
        );
        vstd::seq_lib::lemma_concat_associative(
            ls[0] + seq!['\n'],
            content_of_doc(ls.skip(1)),
            l,
        );
    }
}

/// Loading a text and saving the loaded document reproduces the text
/// byte for byte, up to one trailing newline: a text already ending in a
/// newline comes back unchanged, and any other text comes back with a single
/// newline appended.
pub proof fn lemma_save_load_round_trip(c: Seq<char>)
    ensures
        c.len() > 0 && c.last() == '\n' ==> content_of_doc(doc_of_content(c)) == c,
        !(c.len() > 0 && c.last() == '\n') ==> content_of_doc(doc_of_content(c)) == c.push('\n'),
{
    lemma_join_split(c);
    if c.len() > 0 && c.last() == '\n' {
        lemma_split_trailing(c);
        let s = split_newlines(c);
        assert(s =~= s.drop_last().push(s.last()));
        lemma_join_push(s.drop_last(), s.last());
        let joined = content_of_doc(s.drop_last());
        assert(joined + s.last() + seq!['\n'] =~= joined.push('\n'));
        assert(joined.push('\n') == c.push('\n'));
        assert(joined =~= joined.push('\n').drop_last());
        assert(c =~= c.push('\n').drop_last());
    }
}

/// The raw split of a text whose first segment is still being read: the
/// characters read so far go in front of the split of the remainder.
pub(crate) open spec fn prepend_first(pre: Seq<char>, ls: Seq<Seq<char>>) -> Seq<Seq<char>>
    recommends
        ls.len() >= 1,
{
    seq![pre + ls[0]] + ls.skip(1)
}

/// How the raw split of a suffix steps when one more character is read.
pub(crate) proof fn lemma_split_step(c: Seq<char>, i: int)
    requires
        0 <= i < c.len(),
    ensures
        c[i] == '\n' ==> split_newlines(c.skip(i)) == seq![Seq::<char>::empty()] + split_newlines(
            c.skip(i + 1),
        ),
        c[i] != '\n' ==> split_newlines(c.skip(i)) == seq![
            seq![c[i]] + split_newlines(c.skip(i + 1))[0],
        ] + split_newlines(c.skip(i + 1)).skip(1),
{
    assert(c.skip(i).skip(1) =~= c.skip(i + 1));
    assert(c.skip(i)[0] == c[i]);
    assert(c.skip(i).len() == c.len() - i);
}

} // verus!
