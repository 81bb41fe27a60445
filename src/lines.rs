//! Splitting a text into lines.
//!
//! A line ends at a line feed, which is not part of it; a carriage return
//! just before that line feed is dropped too. The last line needs no line
//! feed, and a text that ends with one has no empty line after it.
use vstd::prelude::*;

verus! {

/// Position of the first line feed in `s`, or `s.len()` when there is none.
pub open spec fn line_end(s: Seq<char>) -> int
    decreases s.len(),
{
    if s.len() == 0 {
        0
    } else if s[0] == '\n' {
        0
    } else {
        1 + line_end(s.drop_first())
    }
}

/// A line with the carriage return that preceded its line feed removed.
pub open spec fn strip_cr(line: Seq<char>) -> Seq<char> {
    if line.len() > 0 && line.last() == '\r' {
        line.drop_last()
    } else {
        line
    }
}

/// The lines of `s`, in order, without their terminators.
pub open spec fn lines_of(s: Seq<char>) -> Seq<Seq<char>>
    decreases s.len(),
{
    let k = line_end(s);
    if s.len() == 0 {
        Seq::empty()
    } else if 0 <= k < s.len() {
        seq![strip_cr(s.subrange(0, k))] + lines_of(s.subrange(k + 1, s.len() as int))
    } else {
        seq![s]
    }
}

proof fn lemma_line_end_bounds(s: Seq<char>)
    ensures
        0 <= line_end(s) <= s.len(),
        forall|i: int| 0 <= i < line_end(s) ==> s[i] != '\n',
        line_end(s) < s.len() ==> s[line_end(s)] == '\n',
    decreases s.len(),
{
    if s.len() > 0 && s[0] != '\n' {
        lemma_line_end_bounds(s.drop_first());
        assert forall|i: int| 0 <= i < line_end(s) implies s[i] != '\n' by {
            if i > 0 {
                assert(s[i] == s.drop_first()[i - 1]);
            }
        }
    }
}

/// The first line feed of `s` is at `k` when none comes before `k` and
/// `k` holds one or is the end.
proof fn lemma_line_end_at(s: Seq<char>, k: int)
    requires
        0 <= k <= s.len(),
        forall|i: int| 0 <= i < k ==> s[i] != '\n',
        k < s.len() ==> s[k] == '\n',
    ensures
        line_end(s) == k,
{
    lemma_line_end_bounds(s);
}

/// A text whose first line feed follows `head` has `head`, stripped, as its
/// first line and the lines of `tail` after it.
proof fn lemma_lines_split(head: Seq<char>, tail: Seq<char>)
    requires
        !head.contains('\n'),
    ensures
        lines_of(head + seq!['\n'] + tail) == seq![strip_cr(head)] + lines_of(tail),
{
    let s = head + seq!['\n'] + tail;
    let k = head.len() as int;
    assert forall|i: int| 0 <= i < k implies s[i] != '\n' by {
        assert(s[i] == head[i]);
    }
    assert(s[k] == '\n');
    lemma_line_end_at(s, k);
    assert(s.subrange(0, k) =~= head);
    assert(s.subrange(k + 1, s.len() as int) =~= tail);
}

/// A non-empty text without a line feed is one line.
proof fn lemma_lines_single(s: Seq<char>)
    requires
        s.len() > 0,
        !s.contains('\n'),
    ensures
        lines_of(s) == seq![s],
{
    lemma_line_end_at(s, s.len() as int);
}

/// A last line that no line feed ends follows the lines before it.
pub proof fn lemma_lines_append_last(head: Seq<char>, last: Seq<char>)
    requires
        head.len() == 0 || head.last() == '\n',
        last.len() > 0,
        !last.contains('\n'),
    ensures
        lines_of(head + last) == lines_of(head) + seq![last],
    decreases head.len(),
{
    if head.len() == 0 {
        assert(head + last =~= last);
        lemma_lines_single(last);
        assert(lines_of(head) =~= Seq::<Seq<char>>::empty());
        assert(lines_of(head) + seq![last] =~= seq![last]);
    } else {
        lemma_line_end_bounds(head);
        let k = line_end(head);
        assert(k < head.len()) by {
            if k == head.len() {
                assert(head[head.len() - 1] == '\n');
            }
        }
        let first = head.subrange(0, k);
        let rest = head.subrange(k + 1, head.len() as int);
        assert(!first.contains('\n')) by {
            assert forall|i: int| 0 <= i < first.len() implies first[i] != '\n' by {
                assert(first[i] == head[i]);
            }
        }
        assert(head =~= first + seq!['\n'] + rest);
        assert(head + last =~= first + seq!['\n'] + (rest + last));
        lemma_lines_split(first, rest);
        lemma_lines_split(first, rest + last);
        if rest.len() > 0 {
            assert(rest.last() == head.last());
        }
        lemma_lines_append_last(rest, last);
        assert(lines_of(head + last) =~= lines_of(head) + seq![last]);
    }
}

/// Relies on `str::split_once` with a `char` pattern: the text before the
/// first occurrence of the character and the text after it, or `None` when
/// it does not occur.
#[verifier::external_body]
fn split_at_line_feed<'a>(s: &'a str) -> (r: Option<(&'a str, &'a str)>)
    ensures
        match r {
            None => !s@.contains('\n'),
            Some((head, tail)) => s@ == head@ + seq!['\n'] + tail@ && !head@.contains('\n'),
        },
{
    s.split_once('\n')
}

/// The first line of a non-empty text, and the text after it.
pub(crate) fn next_line<'a>(rest: &'a str) -> (r: (&'a str, &'a str))
    requires
        rest@.len() > 0,
    ensures
        lines_of(rest@) == seq![r.0@] + lines_of(r.1@),
        r.1@.len() < rest@.len(),
{
    match split_at_line_feed(rest) {
        None => {
            proof {
                lemma_lines_single(rest@);
                reveal_strlit("");
                assert(lines_of(""@) =~= Seq::<Seq<char>>::empty());
                assert(seq![rest@] + lines_of(""@) =~= seq![rest@]);
            }
            (rest, "")
        },
        Some((head, tail)) => {
            proof {
                lemma_lines_split(head@, tail@);
            }
            let n: usize = head.unicode_len();
            let line: &'a str = if n > 0 && head.get_char(n - 1) == '\r' {
                head.substring_char(0, n - 1)
            } else {
                head
            };
            proof {
                if n > 0 && head@.last() == '\r' {
                    assert(line@ =~= head@.drop_last());
                }
            }
            (line, tail)
        },
    }
}

} // verus!
