//! Logical-line splitting (newline-terminated, with a carriage return before
//! the newline stripped) and counting of mailbox boundary lines.

use vstd::prelude::*;

verus! {

use crate::chars::copy_range;
use crate::chars::str_to_chars;

/// The index of the first newline in `s`, or `s.len()` when there is none.
pub open spec fn first_nl(s: Seq<char>) -> int
    decreases s.len(),
{
    if s.len() == 0 {
        0
    } else if s[0] == '\n' {
        0
    } else {
        1 + first_nl(s.drop_first())
    }
}

pub proof fn lemma_first_nl_at(s: Seq<char>, i: int)
    requires
        0 <= i <= s.len(),
        forall|k: int| 0 <= k < i ==> s[k] != '\n',
        i == s.len() || s[i] == '\n',
    ensures
        first_nl(s) == i,
    decreases i,
{
    if i == 0 {
    } else {
        let t = s.drop_first();
        assert(forall|k: int| 0 <= k < i - 1 ==> t[k] != '\n');
        lemma_first_nl_at(t, i - 1);
    }
}

/// A line's content with one trailing carriage return removed.
pub open spec fn strip_cr(l: Seq<char>) -> Seq<char> {
    if l.len() > 0 && l.last() == '\r' {
        l.drop_last()
    } else {
        l
    }
}

/// The logical lines of `s`: content is split at each newline, a carriage
/// return directly before a newline is dropped, and a final segment without a
/// newline is kept as it stands. A trailing newline yields no extra empty
/// line.
pub open spec fn split_lines(s: Seq<char>) -> Seq<Seq<char>>
    decreases s.len(),
{
    if s.len() == 0 {
        Seq::empty()
    } else {
        let k = first_nl(s);
        if 0 <= k < s.len() {
            seq![strip_cr(s.take(k))] + split_lines(s.skip(k + 1))
        } else {
            seq![s]
        }
    }
}

/// The logical lines of a character vector.
pub fn split_lines_vec(v: &Vec<char>) -> (r: Vec<Vec<char>>)
    ensures
        r.deep_view() == split_lines(v@),
{
    let n = v.len();
    let mut out: Vec<Vec<char>> = Vec::new();
    let mut pos: usize = 0;
    proof {
        assert(v@.skip(0) =~= v@);
        assert(out.deep_view() =~= Seq::<Seq<char>>::empty());
    }
    while pos < n
        invariant
            n == v@.len(),
            pos <= n,
            out.deep_view() + split_lines(v@.skip(pos as int)) == split_lines(v@),
        decreases n - pos,
    {
        let ghost rest = v@.skip(pos as int);
        let mut j: usize = pos;
        while j < n && v[j] != '\n'
            invariant
                n == v@.len(),
                pos <= j <= n,
                forall|k: int| pos <= k < j ==> v@[k] != '\n',
            decreases n - j,
        {
            j = j + 1;
        }
        proof {
            assert(forall|k: int| 0 <= k < j - pos ==> rest[k] != '\n');
            if j < n {
                assert(rest[j - pos] == '\n');
            }
            lemma_first_nl_at(rest, j - pos);
        }
        let ghost prev = out.deep_view();
        if j < n {
            let end = if j > pos && v[j - 1] == '\r' {
                j - 1
            } else {
                j
            };
            let line = copy_range(v, pos, end);
            proof {
                assert(rest.take(j - pos) =~= v@.subrange(pos as int, j as int));
                if j > pos && v@[j - 1] == '\r' {
                    assert(strip_cr(rest.take(j - pos)) =~= v@.subrange(
                        pos as int,
                        end as int,
                    ));
                } else {
                    assert(strip_cr(rest.take(j - pos)) =~= v@.subrange(
                        pos as int,
                        end as int,
                    ));
                }
                assert(line.deep_view() =~= line@);
            }
            out.push(line);
            proof {
                assert(out.deep_view() =~= prev + seq![strip_cr(rest.take(j - pos))]);
                assert(rest.skip(j - pos + 1) =~= v@.skip(j + 1));
                assert(split_lines(rest) == seq![strip_cr(rest.take(j - pos))] + split_lines(
                    v@.skip(j + 1),
                ));
                assert(out.deep_view() + split_lines(v@.skip(j + 1)) =~= split_lines(v@));
            }
            pos = j + 1;
        } else {
            let line = copy_range(v, pos, n);
            proof {
                assert(line@ =~= rest);
                assert(line.deep_view() =~= rest);
                assert(split_lines(rest) == seq![rest]);
            }
            out.push(line);
            proof {
                assert(out.deep_view() =~= prev + seq![rest]);
                assert(v@.skip(n as int) =~= Seq::<char>::empty());
                assert(out.deep_view() + split_lines(v@.skip(n as int)) =~= split_lines(v@));
            }
            pos = n;
        }
    }
    proof {
        assert(v@.skip(n as int) =~= Seq::<char>::empty());
        assert(out.deep_view() =~= split_lines(v@));
    }
    out
}

/// A mailbox boundary line: it starts with the literal marker `From `.
pub open spec fn is_boundary_line(l: Seq<char>) -> bool {
    l.len() >= 5 && l[0] == 'F' && l[1] == 'r' && l[2] == 'o' && l[3] == 'm' && l[4] == ' '
}

/// How many of the lines are boundary lines.
pub open spec fn count_boundaries(ls: Seq<Seq<char>>) -> int
    decreases ls.len(),
{
    if ls.len() == 0 {
        0
    } else {
        (if is_boundary_line(ls[0]) {
            1int
        } else {
            0int
        }) + count_boundaries(ls.drop_first())
    }
}

pub proof fn lemma_count_boundaries_bounds(ls: Seq<Seq<char>>)
    ensures
        0 <= count_boundaries(ls) <= ls.len(),
    decreases ls.len(),
{
    if ls.len() > 0 {
        lemma_count_boundaries_bounds(ls.drop_first());
    }
}

/// The number of logical lines of `text` that start with the mailbox
/// boundary marker `From `.
pub fn count_boundary_lines(text: &str) -> (n: usize)
    ensures
        n == count_boundaries(split_lines(text@)),
{
    let cs = str_to_chars(text);
    let lines = split_lines_vec(&cs);
    let ghost lv = split_lines(text@);
    let mut n: usize = 0;
    let mut i: usize = 0;
    proof {
        assert(lv.skip(0) =~= lv);
        lemma_count_boundaries_bounds(lv);
    }
    while i < lines.len()
        invariant
            lines.deep_view() == lv,
            i <= lv.len(),
            n <= i,
            n + count_boundaries(lv.skip(i as int)) == count_boundaries(lv),
            count_boundaries(lv) <= lv.len(),
        decreases lv.len() - i,
    {
        let l = &lines[i];
        proof {
            assert(l@ =~= l.deep_view());
            assert(l@ == lv[i as int]);
            assert(lv.skip(i as int).drop_first() =~= lv.skip(i + 1));
            assert(lv.skip(i as int)[0] == lv[i as int]);
            lemma_count_boundaries_bounds(lv.skip(i + 1));
        }
        if l.len() >= 5 && l[0] == 'F' && l[1] == 'r' && l[2] == 'o' && l[3] == 'm' && l[4] == ' ' {
            assert(is_boundary_line(lv[i as int]));
            n = n + 1;
        } else {
            assert(!is_boundary_line(lv[i as int]));
        }
        i = i + 1;
    }
    proof {
        assert(lv.skip(lv.len() as int) =~= Seq::<Seq<char>>::empty());
    }
    n
}

} // verus!
