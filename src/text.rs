//! Text as a sequence of lines, and the character buffers the library builds.
use vstd::prelude::*;

verus! {

/// The line separator.
pub open spec fn is_newline(c: char) -> bool {
    c == '\n'
}

/// No character of `l` is a line separator.
pub open spec fn is_line(l: Seq<char>) -> bool {
    forall|i: int| 0 <= i < l.len() ==> !is_newline(#[trigger] l[i])
}

/// The lines of `s`: the pieces between separators. A text with `k`
/// separators has `k + 1` lines, so the empty text has one empty line.
pub open spec fn split_lines(s: Seq<char>) -> Seq<Seq<char>>
    decreases s.len(),
{
    if s.len() == 0 {
        seq![Seq::<char>::empty()]
    } else {
        let rest = split_lines(s.drop_last());
        if is_newline(s.last()) {
            rest.push(Seq::<char>::empty())
        } else {
            rest.update(rest.len() - 1, rest.last().push(s.last()))
        }
    }
}

/// The lines of `ls` put back together, one separator between neighbours.
pub open spec fn join_lines(ls: Seq<Seq<char>>) -> Seq<char>
    decreases ls.len(),
{
    if ls.len() == 0 {
        Seq::<char>::empty()
    } else if ls.len() == 1 {
        ls[0]
    } else {
        join_lines(ls.drop_last()) + seq!['\n'] + ls.last()
    }
}

pub proof fn lemma_split_lines_nonempty(s: Seq<char>)
    ensures
        split_lines(s).len() >= 1,
        forall|i: int| 0 <= i < split_lines(s).len() ==> is_line(#[trigger] split_lines(s)[i]),
    decreases s.len(),
{
    if s.len() > 0 {
        lemma_split_lines_nonempty(s.drop_last());
        let rest = split_lines(s.drop_last());
        if !is_newline(s.last()) {
            assert(is_line(rest.last().push(s.last()))) by {
                assert(is_line(rest[rest.len() - 1]));
            }
        } else {
            assert(is_line(Seq::<char>::empty()));
        }
    } else {
        assert(is_line(Seq::<char>::empty()));
    }
}

/// Appending a separator-free piece only extends the last line.
proof fn lemma_split_append_line(a: Seq<char>, b: Seq<char>)
    requires
        is_line(b),
    ensures
        split_lines(a + b) == split_lines(a).update(
            split_lines(a).len() - 1,
            split_lines(a).last() + b,
        ),
    decreases b.len(),
{
    lemma_split_lines_nonempty(a);
    if b.len() == 0 {
        assert(a + b =~= a);
        assert(split_lines(a).last() + b =~= split_lines(a).last());
        assert(split_lines(a).update(split_lines(a).len() - 1, split_lines(a).last())
            =~= split_lines(a));
    } else {
        let b0 = b.drop_last();
        assert(is_line(b0)) by {
            assert forall|i: int| 0 <= i < b0.len() implies !is_newline(#[trigger] b0[i]) by {
                assert(b0[i] == b[i]);
            }
        }
        lemma_split_append_line(a, b0);
        assert((a + b).drop_last() =~= a + b0);
        assert((a + b).last() == b.last());
        assert(!is_newline(b[b.len() - 1]));
        assert((split_lines(a).last() + b0).push(b.last()) =~= split_lines(a).last() + b);
    }
}

/// Splitting undoes joining, as long as no line holds a separator.
pub proof fn lemma_split_join(ls: Seq<Seq<char>>)
    requires
        ls.len() >= 1,
        forall|i: int| 0 <= i < ls.len() ==> is_line(#[trigger] ls[i]),
    ensures
        split_lines(join_lines(ls)) == ls,
    decreases ls.len(),
{
    if ls.len() == 1 {
        lemma_split_append_line(Seq::<char>::empty(), ls[0]);
        assert(Seq::<char>::empty() + ls[0] =~= ls[0]);
        assert(Seq::<char>::empty() + ls[0] =~= ls[0]);
        assert(split_lines(ls[0]) =~= ls);
    } else {
        let init = ls.drop_last();
        assert forall|i: int| 0 <= i < init.len() implies is_line(#[trigger] init[i]) by {
            assert(init[i] == ls[i]);
        }
        lemma_split_join(init);
        let j = join_lines(init) + seq!['\n'];
        assert(j.drop_last() =~= join_lines(init));
        assert(split_lines(j) == init.push(Seq::<char>::empty()));
        assert(is_line(ls[ls.len() - 1]));
        lemma_split_append_line(j, ls.last());
        assert(Seq::<char>::empty() + ls.last() =~= ls.last());
        assert(init.push(Seq::<char>::empty()).update(init.len() as int, ls.last()) =~= ls);
    }
}

/// Appends the characters of `s` to `out`.
pub fn push_str(out: &mut Vec<char>, s: &str)
    ensures
        final(out)@ == old(out)@ + s@,
{
    let ghost start = out@;
    for c in it: s.chars()
        invariant
            it.seq() == s@,
            out@ == start + s@.subrange(0, it.index() as int),
    {
        out.push(c);
        assert(s@.subrange(0, it.index() as int + 1) =~= s@.subrange(0, it.index() as int).push(c));
    }
    assert(s@.subrange(0, s@.len() as int) =~= s@);
}

/// Relies on `String`'s `FromIterator<char>`: the characters are kept, in order.
#[verifier::external_body]
pub(crate) fn string_from_chars(v: &Vec<char>) -> (s: String)
    ensures
        s@ == v@,
{
    v.iter().collect()
}

/// The characters of `s`.
pub fn chars_of(s: &str) -> (v: Vec<char>)
    ensures
        v@ == s@,
{
    let mut v: Vec<char> = Vec::new();
    push_str(&mut v, s);
    assert(Seq::<char>::empty() + s@ =~= s@);
    v
}

/// Appends `l[from..to]` to `out`.
pub fn push_range(out: &mut Vec<char>, l: &Vec<char>, from: usize, to: usize)
    requires
        from <= to <= l.len(),
    ensures
        final(out)@ == old(out)@ + l@.subrange(from as int, to as int),
{
    let ghost start = out@;
    let mut i: usize = from;
    while i < to
        invariant
            from <= i <= to <= l.len(),
            out@ == start + l@.subrange(from as int, i as int),
        decreases to - i,
    {
        out.push(l[i]);
        assert(l@.subrange(from as int, i + 1) =~= l@.subrange(from as int, i as int).push(l@[i as int]));
        i += 1;
    }
}

} // verus!
