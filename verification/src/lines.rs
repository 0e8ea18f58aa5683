//! Splitting text into lines, the way `str::lines` does: lines end at `\n`
//! or `\r\n`, the terminator is not part of the line, and a final line
//! without a terminator still counts.

use vstd::prelude::*;

verus! {

/// Index of the first `\n`, or the length when there is none.
pub open spec fn first_nl(s: Seq<char>) -> nat
    decreases s.len(),
{
    if s.len() == 0 {
        0
    } else if s[0] == '\n' {
        0
    } else {
        1 + first_nl(s.drop_first())
    }
}

pub proof fn lemma_first_nl(s: Seq<char>)
    ensures
        first_nl(s) <= s.len(),
        forall|j: int| 0 <= j < first_nl(s) ==> s[j] != '\n',
        first_nl(s) < s.len() ==> s[first_nl(s) as int] == '\n',
    decreases s.len(),
{
    if s.len() > 0 && s[0] != '\n' {
        lemma_first_nl(s.drop_first());
        assert forall|j: int| 0 <= j < first_nl(s) implies s[j] != '\n' by {
            if j > 0 {
                assert(s[j] == s.drop_first()[j - 1]);
            }
        }
    }
}

/// A line segment with one trailing carriage return removed.
pub open spec fn strip_cr(t: Seq<char>) -> Seq<char> {
    if t.len() > 0 && t.last() == '\r' {
        t.drop_last()
    } else {
        t
    }
}

/// The lines of `s`, split at `\n`, each with a trailing `\r` removed.
pub open spec fn split_lines(s: Seq<char>) -> Seq<Seq<char>>
    decreases s.len(),
{
    if s.len() == 0 {
        Seq::empty()
    } else {
        let i = first_nl(s);
        if i < s.len() {
            seq![strip_cr(s.take(i as int))] + split_lines(s.skip(i as int + 1))
        } else {
            seq![s]
        }
    }
}

/// In `cur + "\n" + rest`, with no `\n` in `cur`, the first newline sits
/// right after `cur`.
proof fn lemma_first_nl_concat(cur: Seq<char>, rest: Seq<char>)
    requires
        forall|j: int| 0 <= j < cur.len() ==> cur[j] != '\n',
    ensures
        first_nl(cur + seq!['\n'] + rest) == cur.len(),
    decreases cur.len(),
{
    let s = cur + seq!['\n'] + rest;
    if cur.len() == 0 {
        assert(s[0] == '\n');
    } else {
        assert(s[0] == cur[0]);
        assert(s.drop_first() =~= cur.drop_first() + seq!['\n'] + rest);
        lemma_first_nl_concat(cur.drop_first(), rest);
    }
}

/// Splitting `cur + "\n" + rest` yields the line `strip_cr(cur)` followed by
/// the lines of `rest`, when `cur` holds no `\n`.
pub proof fn lemma_split_lines_step(cur: Seq<char>, rest: Seq<char>)
    requires
        forall|j: int| 0 <= j < cur.len() ==> cur[j] != '\n',
    ensures
        split_lines(cur + seq!['\n'] + rest) == seq![strip_cr(cur)] + split_lines(rest),
{
    let s = cur + seq!['\n'] + rest;
    lemma_first_nl_concat(cur, rest);
    let i = first_nl(s);
    assert(i == cur.len());
    assert(i < s.len());
    assert(s.take(i as int) =~= cur);
    assert(s.skip(i as int + 1) =~= rest);
}

/// A text without `\n` is one line (or none at all, when it is empty).
pub proof fn lemma_split_lines_tail(cur: Seq<char>)
    requires
        forall|j: int| 0 <= j < cur.len() ==> cur[j] != '\n',
    ensures
        split_lines(cur) == if cur.len() == 0 {
            Seq::<Seq<char>>::empty()
        } else {
            seq![cur]
        },
{
    lemma_first_nl(cur);
    if cur.len() > 0 {
        assert(first_nl(cur) == cur.len());
    }
}

/// Splits a string into its lines.
pub fn split_lines_str(s: &str) -> (lines: Vec<String>)
    ensures
        lines.deep_view() == split_lines(s@),
{
    let n: usize = s.unicode_len();
    let mut lines: Vec<String> = Vec::new();
    let mut cur = String::new();
    let mut i: usize = 0;
    proof {
        assert(cur@ + s@.skip(0) =~= s@);
        assert(lines.deep_view() + split_lines(s@) =~~= split_lines(s@));
    }
    while i < n
        invariant
            0 <= i <= n,
            n == s@.len(),
            forall|j: int| 0 <= j < cur@.len() ==> cur@[j] != '\n',
            split_lines(s@) == lines.deep_view() + split_lines(cur@ + s@.skip(i as int)),
        decreases n - i,
    {
        let c = s.get_char(i);
        if c == '\n' {
            let ghost cur0 = cur@;
            let ghost dv0 = lines.deep_view();
            let cl: usize = cur.as_str().unicode_len();
            if cl > 0 && cur.as_str().get_char(cl - 1) == '\r' {
                cur.pop();
            }
            proof {
                assert(cur@ == strip_cr(cur0));
                assert(cur0 + s@.skip(i as int) =~= cur0 + seq!['\n'] + s@.skip(i + 1));
                lemma_split_lines_step(cur0, s@.skip(i + 1));
            }
            lines.push(cur);
            cur = String::new();
            proof {
                assert(lines.deep_view() =~~= dv0 + seq![strip_cr(cur0)]);
                assert(cur@ + s@.skip(i + 1) =~= s@.skip(i + 1));
            }
        } else {
            let ghost cur0 = cur@;
            cur.push(c);
            proof {
                assert(cur@ + s@.skip(i + 1) =~= cur0 + s@.skip(i as int));
            }
        }
        i = i + 1;
    }
    proof {
        assert(cur@ + s@.skip(n as int) =~= cur@);
        lemma_split_lines_tail(cur@);
    }
    if cur.as_str().unicode_len() > 0 {
        let ghost dv0 = lines.deep_view();
        let ghost cur_line = cur@;
        lines.push(cur);
        proof {
            assert(lines.deep_view() =~~= dv0 + seq![cur_line]);
        }
    }
    lines
}

} // verus!
