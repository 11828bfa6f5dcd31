//! Splitting a block's buffered text into lines, each line keeping its
//! trailing terminator, so that highlighting one line at a time neither
//! loses nor moves a character.

use vstd::prelude::*;

verus! {

/// The character sequences of a row of line buffers.
pub open spec fn views_of(ls: Seq<Vec<char>>) -> Seq<Seq<char>> {
    Seq::new(ls.len(), |i: int| ls[i]@)
}

/// The line texts, concatenated back together.
pub open spec fn concat_lines(ls: Seq<Seq<char>>) -> Seq<char>
    decreases ls.len(),
{
    if ls.len() == 0 {
        Seq::empty()
    } else {
        ls[0] + concat_lines(ls.skip(1))
    }
}

proof fn lemma_views_push(ls: Seq<Vec<char>>, x: Vec<char>)
    ensures
        views_of(ls.push(x)) == views_of(ls).push(x@),
{
    assert forall|k: int| 0 <= k < views_of(ls.push(x)).len() implies views_of(ls.push(x))[k]
        == views_of(ls).push(x@)[k] by {
        if k < ls.len() {
            assert(ls.push(x)[k] == ls[k]);
        } else {
            assert(ls.push(x)[k] == x);
        }
    }
    assert(views_of(ls.push(x)) =~= views_of(ls).push(x@));
}

/// One more line at the tail extends the concatenation at the tail.
pub proof fn lemma_concat_lines_push(ls: Seq<Seq<char>>, x: Seq<char>)
    ensures
        concat_lines(ls.push(x)) == concat_lines(ls) + x,
    decreases ls.len(),
{
    assert(concat_lines(Seq::<Seq<char>>::empty()) == Seq::<char>::empty());
    if ls.len() == 0 {
        assert(ls.push(x)[0] == x);
        assert(ls.push(x).skip(1) =~= Seq::<Seq<char>>::empty());
        assert(concat_lines(ls.push(x)) == x + concat_lines(Seq::<Seq<char>>::empty()));
        assert(x + Seq::<char>::empty() =~= x);
        assert(ls =~= Seq::<Seq<char>>::empty());
        assert(Seq::<char>::empty() + x =~= x);
    } else {
        lemma_concat_lines_push(ls.skip(1), x);
        assert(ls.push(x)[0] == ls[0]);
        assert(ls.push(x).skip(1) =~= ls.skip(1).push(x));
        assert(ls[0] + (concat_lines(ls.skip(1)) + x) =~= (ls[0] + concat_lines(ls.skip(1)))
            + x);
    }
}

/// The concatenation of one more line, at position `j` of the row.
pub proof fn lemma_concat_lines_take(ls: Seq<Seq<char>>, j: int)
    requires
        0 <= j < ls.len(),
    ensures
        concat_lines(ls.take(j + 1)) == concat_lines(ls.take(j)) + ls[j],
    decreases j,
{
    assert(concat_lines(Seq::<Seq<char>>::empty()) == Seq::<char>::empty());
    if j == 0 {
        assert(ls.take(1)[0] == ls[0]);
        assert(ls.take(1).skip(1) =~= Seq::<Seq<char>>::empty());
        assert(concat_lines(ls.take(1)) == ls[0] + concat_lines(Seq::<Seq<char>>::empty()));
        assert(ls.take(0) =~= Seq::<Seq<char>>::empty());
        assert(ls[0] + Seq::<char>::empty() =~= ls[0]);
        assert(Seq::<char>::empty() + ls[0] =~= ls[0]);
    } else {
        let r = ls.skip(1);
        lemma_concat_lines_take(r, j - 1);
        assert(ls.take(j + 1)[0] == ls[0]);
        assert(ls.take(j + 1).skip(1) =~= r.take(j));
        assert(ls.take(j)[0] == ls[0]);
        assert(ls.take(j).skip(1) =~= r.take(j - 1));
        assert(r[j - 1] == ls[j]);
        assert(ls[0] + (concat_lines(r.take(j - 1)) + ls[j]) =~= (ls[0] + concat_lines(r.take(
            j - 1,
        ))) + ls[j]);
    }
}

/// A proper line: nonempty, with no `'\n'` anywhere but as its final
/// character.
pub open spec fn is_line(s: Seq<char>) -> bool {
    s.len() > 0 && forall|k: int| 0 <= k < s.len() - 1 ==> s[k] != '\n'
}

/// Split a text into its lines: every line is nonempty and holds no line
/// terminator except as its final character; every line but the last ends
/// with one. Concatenated, the lines give the text back, so per-line
/// highlighting neither loses nor moves a character.
pub fn split_lines(body: &Vec<char>) -> (lines: Vec<Vec<char>>)
    ensures
        concat_lines(views_of(lines@)) == body@,
        body@.len() == 0 ==> lines@.len() == 0,
        forall|i: int| 0 <= i < lines@.len() ==> is_line(#[trigger] lines@[i]@),
        forall|i: int| 0 <= i < lines@.len() - 1 ==> (#[trigger] lines@[i]@).last() == '\n',
{
    let mut lines: Vec<Vec<char>> = Vec::new();
    let mut cur: Vec<char> = Vec::new();
    let n = body.len();
    let mut i: usize = 0;
    while i < n
        invariant
            n == body@.len(),
            i <= n,
            concat_lines(views_of(lines@)) + cur@ == body@.take(i as int),
            i == 0 ==> lines@.len() == 0 && cur@.len() == 0,
            forall|j: int|
                0 <= j < lines@.len() ==> is_line(#[trigger] lines@[j]@) && lines@[j]@.last()
                    == '\n',
            forall|k: int| 0 <= k < cur@.len() ==> cur@[k] != '\n',
        decreases n - i,
    {
        let ghost ls0 = lines@;
        let ghost cur0 = cur@;
        let c = body[i];
        cur.push(c);
        if c == '\n' {
            proof {
                lemma_views_push(ls0, cur);
                lemma_concat_lines_push(views_of(ls0), cur@);
                assert(is_line(cur@)) by {
                    assert(forall|k: int| 0 <= k < cur@.len() - 1 ==> cur@[k] == cur0[k]);
                }
                assert(cur@.last() == '\n');
            }
            lines.push(cur);
            cur = Vec::new();
            assert(forall|j: int|
                0 <= j < lines@.len() - 1 ==> #[trigger] lines@[j]@ == ls0[j]@);
        }
        proof {
            assert(cur0.push(c) =~= cur0 + seq![body@[i as int]]);
            assert(body@.take(i as int) + seq![body@[i as int]] =~= body@.take(i as int + 1));
            assert(concat_lines(views_of(lines@)) + cur@ =~= body@.take(i as int + 1));
        }
        i = i + 1;
    }
    assert(body@.take(n as int) =~= body@);
    if cur.len() > 0 {
        let ghost ls0 = lines@;
        proof {
            lemma_views_push(lines@, cur);
            lemma_concat_lines_push(views_of(lines@), cur@);
            assert(is_line(cur@));
        }
        lines.push(cur);
        assert(forall|j: int| 0 <= j < lines@.len() - 1 ==> #[trigger] lines@[j]@ == ls0[j]@);
    } else {
        assert(concat_lines(views_of(lines@)) + cur@ =~= concat_lines(views_of(lines@)));
    }
    lines
}

} // verus!
