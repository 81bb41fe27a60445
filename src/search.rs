//! Selecting the lines of a text that contain a query.
use vstd::prelude::*;
use crate::lines::{lemma_lines_append_last, lines_of, next_line};
use crate::text::{
    chars_of, contains_query, has_infix, has_infix_chars, lemma_empty_infix, lower_of, lowercase,
};

verus! {

/// The text of each returned line.
pub open spec fn line_views(lines: Seq<&str>) -> Seq<Seq<char>> {
    lines.map_values(|l: &str| l@)
}

/// Holds of a line that contains `query` exactly.
pub open spec fn holds_query(query: Seq<char>) -> spec_fn(Seq<char>) -> bool {
    |line: Seq<char>| has_infix(line, query)
}

/// Holds of a line that contains `query` once both are lower-cased.
pub open spec fn holds_query_ignoring_case(query: Seq<char>) -> spec_fn(Seq<char>) -> bool {
    |line: Seq<char>| has_infix(lower_of(line), lower_of(query))
}

/// The lines of `content` that contain `query`, in their order.
pub open spec fn matching_lines(content: Seq<char>, query: Seq<char>) -> Seq<Seq<char>> {
    lines_of(content).filter(holds_query(query))
}

/// The lines of `content` that contain `query` regardless of case, in their order.
pub open spec fn matching_lines_ignoring_case(content: Seq<char>, query: Seq<char>) -> Seq<
    Seq<char>,
> {
    lines_of(content).filter(holds_query_ignoring_case(query))
}

/// A filter that keeps every element returns the sequence unchanged.
proof fn lemma_filter_keeps_all(s: Seq<Seq<char>>, keep: spec_fn(Seq<char>) -> bool)
    requires
        forall|i: int| 0 <= i < s.len() ==> keep(#[trigger] s[i]),
    ensures
        s.filter(keep) == s,
    decreases s.len(),
{
    reveal(Seq::filter);
    if s.len() > 0 {
        lemma_filter_keeps_all(s.drop_last(), keep);
        assert(s.drop_last().push(s.last()) =~= s);
    }
}

/// One step of the scan: the first line of `rest` is kept by `keep` or not.
proof fn lemma_scan_step<'a>(
    found: Seq<&'a str>,
    line: &'a str,
    tail: Seq<char>,
    keep: spec_fn(Seq<char>) -> bool,
)
    ensures
        keep(line@) ==> line_views(found.push(line)) + lines_of(tail).filter(keep) == line_views(
            found,
        ) + (seq![line@] + lines_of(tail)).filter(keep),
        !keep(line@) ==> line_views(found) + lines_of(tail).filter(keep) == line_views(found) + (
        seq![line@] + lines_of(tail)).filter(keep),
{
    lines_of(tail).lemma_filter_prepend(line@, keep);
    assert(line_views(found.push(line)) =~= line_views(found).push(line@));
    if keep(line@) {
        assert(line_views(found).push(line@) + lines_of(tail).filter(keep) =~= line_views(found)
            + (seq![line@] + lines_of(tail).filter(keep)));
    } else {
        assert(Seq::<Seq<char>>::empty() + lines_of(tail).filter(keep) =~= lines_of(tail).filter(
            keep,
        ));
    }
}

/// Nothing is left to scan once the rest of the text is empty.
proof fn lemma_scan_done(rest: Seq<char>, keep: spec_fn(Seq<char>) -> bool)
    requires
        rest.len() == 0,
    ensures
        lines_of(rest).filter(keep) == Seq::<Seq<char>>::empty(),
{
    reveal(Seq::filter);
    assert(lines_of(rest) =~= Seq::<Seq<char>>::empty());
}

/// The lines of `content` that contain `query`, in the order in which they
/// stand, each without its line terminator.
pub fn search<'a>(query: &str, content: &'a str) -> (r: Vec<&'a str>)
    ensures
        line_views(r@) == matching_lines(content@, query@),
        forall|i: int| 0 <= i < r@.len() ==> has_infix(#[trigger] r@[i]@, query@),
        query@.len() == 0 ==> line_views(r@) == lines_of(content@),
{
    let pat = chars_of(query);
    let ghost keep = holds_query(query@);
    let mut found: Vec<&'a str> = Vec::new();
    let mut rest: &'a str = content;
    proof {
        assert(line_views(found@) =~= Seq::<Seq<char>>::empty());
        assert(Seq::<Seq<char>>::empty() + lines_of(rest@).filter(keep) =~= lines_of(rest@).filter(
            keep,
        ));
    }
    while !rest.is_empty()
        invariant
            pat@ == query@,
            keep == holds_query(query@),
            line_views(found@) + lines_of(rest@).filter(keep) == matching_lines(content@, query@),
        decreases rest@.len(),
    {
        let (line, tail) = next_line(rest);
        proof {
            lemma_scan_step(found@, line, tail@, keep);
        }
        if has_infix_chars(&chars_of(line), &pat) {
            found.push(line);
        }
        rest = tail;
    }
    proof {
        lemma_scan_done(rest@, keep);
        assert(line_views(found@) + Seq::<Seq<char>>::empty() =~= line_views(found@));
        assert forall|i: int| 0 <= i < found@.len() implies has_infix(
            #[trigger] found@[i]@,
            query@,
        ) by {
            assert(line_views(found@)[i] == found@[i]@);
            lines_of(content@).lemma_filter_pred(keep, i);
        }
        if query@.len() == 0 {
            assert forall|i: int| 0 <= i < lines_of(content@).len() implies keep(
                #[trigger] lines_of(content@)[i],
            ) by {
                lemma_empty_infix(lines_of(content@)[i]);
                assert(query@ =~= Seq::<char>::empty());
            }
            lemma_filter_keeps_all(lines_of(content@), keep);
        }
    }
    found
}

/// The lines of `content` that contain `query` when both are lower-cased,
/// in the order in which they stand, each in its original case and without
/// its line terminator.
pub fn case_insensitive<'a>(query: &str, content: &'a str) -> (r: Vec<&'a str>)
    ensures
        line_views(r@) == matching_lines_ignoring_case(content@, query@),
        forall|i: int|
            0 <= i < r@.len() ==> has_infix(lower_of(#[trigger] r@[i]@), lower_of(query@)),
        query@.len() == 0 ==> line_views(r@) == lines_of(content@),
{
    let lowered = lowercase(query);
    let ghost keep = holds_query_ignoring_case(query@);
    let mut found: Vec<&'a str> = Vec::new();
    let mut rest: &'a str = content;
    proof {
        assert(line_views(found@) =~= Seq::<Seq<char>>::empty());
        assert(Seq::<Seq<char>>::empty() + lines_of(rest@).filter(keep) =~= lines_of(rest@).filter(
            keep,
        ));
    }
    while !rest.is_empty()
        invariant
            lowered@ == lower_of(query@),
            keep == holds_query_ignoring_case(query@),
            line_views(found@) + lines_of(rest@).filter(keep) == matching_lines_ignoring_case(
                content@,
                query@,
            ),
        decreases rest@.len(),
    {
        let (line, tail) = next_line(rest);
        proof {
            lemma_scan_step(found@, line, tail@, keep);
        }
        if contains_query(lowercase(line).as_str(), lowered.as_str()) {
            found.push(line);
        }
        rest = tail;
    }
    proof {
        lemma_scan_done(rest@, keep);
        assert(line_views(found@) + Seq::<Seq<char>>::empty() =~= line_views(found@));
        assert forall|i: int| 0 <= i < found@.len() implies has_infix(
            lower_of(#[trigger] found@[i]@),
            lower_of(query@),
        ) by {
            assert(line_views(found@)[i] == found@[i]@);
            lines_of(content@).lemma_filter_pred(keep, i);
        }
        if query@.len() == 0 {
            assert forall|i: int| 0 <= i < lines_of(content@).len() implies keep(
                #[trigger] lines_of(content@)[i],
            ) by {
                lemma_empty_infix(lower_of(lines_of(content@)[i]));
                assert(lower_of(query@) =~= Seq::<char>::empty());
            }
            lemma_filter_keeps_all(lines_of(content@), keep);
        }
    }
    found
}

/// Filtering the lines of a text that ends in a line without a line feed:
/// that line comes last, after the kept lines before it.
proof fn lemma_last_line_kept(
    head: Seq<char>,
    last: Seq<char>,
    keep: spec_fn(Seq<char>) -> bool,
)
    requires
        head.len() == 0 || head.last() == '\n',
        last.len() > 0,
        !last.contains('\n'),
        keep(last),
    ensures
        lines_of(head + last).filter(keep) == lines_of(head).filter(keep).push(last),
{
    lemma_lines_append_last(head, last);
    Seq::filter_distributes_over_add(lines_of(head), seq![last], keep);
    Seq::<Seq<char>>::empty().lemma_filter_prepend(last, keep);
    reveal(Seq::filter);
    assert(seq![last] =~= seq![last] + Seq::<Seq<char>>::empty());
    assert(Seq::<Seq<char>>::empty().filter(keep) =~= Seq::<Seq<char>>::empty());
    assert(lines_of(head).filter(keep) + seq![last] =~= lines_of(head).filter(keep).push(last));
}

/// A last line without a line feed after it is still searched: when it
/// contains the query, it is the last match, after those of the text before it.
pub proof fn lemma_search_keeps_unterminated_last_line(
    head: Seq<char>,
    last: Seq<char>,
    query: Seq<char>,
)
    requires
        head.len() == 0 || head.last() == '\n',
        last.len() > 0,
        !last.contains('\n'),
        has_infix(last, query),
    ensures
        matching_lines(head + last, query) == matching_lines(head, query).push(last),
{
    lemma_last_line_kept(head, last, holds_query(query));
}

/// The same holds when case is ignored: a last line without a line feed after
/// it that contains the query regardless of case is the last match.
pub proof fn lemma_case_insensitive_keeps_unterminated_last_line(
    head: Seq<char>,
    last: Seq<char>,
    query: Seq<char>,
)
    requires
        head.len() == 0 || head.last() == '\n',
        last.len() > 0,
        !last.contains('\n'),
        has_infix(lower_of(last), lower_of(query)),
    ensures
        matching_lines_ignoring_case(head + last, query) == matching_lines_ignoring_case(
            head,
            query,
        ).push(last),
{
    lemma_last_line_kept(head, last, holds_query_ignoring_case(query));
}

/// Every line that `search` selects contains the query, and every line of the
/// text that contains the query is selected. The selection is a filter of the
/// lines, so it keeps their order.
pub proof fn lemma_search_sound_and_complete(content: Seq<char>, query: Seq<char>)
    ensures
        forall|i: int|
            0 <= i < matching_lines(content, query).len() ==> has_infix(
                #[trigger] matching_lines(content, query)[i],
                query,
            ),
        forall|i: int|
            0 <= i < lines_of(content).len() && has_infix(#[trigger] lines_of(content)[i], query)
                ==> matching_lines(content, query).contains(lines_of(content)[i]),
{
    let keep = holds_query(query);
    assert forall|i: int| 0 <= i < matching_lines(content, query).len() implies has_infix(
        #[trigger] matching_lines(content, query)[i],
        query,
    ) by {
        lines_of(content).lemma_filter_pred(keep, i);
    }
    assert forall|i: int|
        0 <= i < lines_of(content).len() && has_infix(
            #[trigger] lines_of(content)[i],
            query,
        ) implies matching_lines(content, query).contains(lines_of(content)[i]) by {
        lines_of(content).lemma_filter_contains(keep, i);
    }
}

/// Every line that `case_insensitive` selects contains the query once both
/// are lower-cased, and every such line of the text is selected.
pub proof fn lemma_case_insensitive_sound_and_complete(content: Seq<char>, query: Seq<char>)
    ensures
        forall|i: int|
            0 <= i < matching_lines_ignoring_case(content, query).len() ==> has_infix(
                lower_of(#[trigger] matching_lines_ignoring_case(content, query)[i]),
                lower_of(query),
            ),
        forall|i: int|
            0 <= i < lines_of(content).len() && has_infix(
                lower_of(#[trigger] lines_of(content)[i]),
                lower_of(query),
            ) ==> matching_lines_ignoring_case(content, query).contains(lines_of(content)[i]),
{
    let keep = holds_query_ignoring_case(query);
    assert forall|i: int| 0 <= i < matching_lines_ignoring_case(content, query).len() implies has_infix(
        lower_of(#[trigger] matching_lines_ignoring_case(content, query)[i]),
        lower_of(query),
    ) by {
        lines_of(content).lemma_filter_pred(keep, i);
    }
    assert forall|i: int|
        0 <= i < lines_of(content).len() && has_infix(
            lower_of(#[trigger] lines_of(content)[i]),
            lower_of(query),
        ) implies matching_lines_ignoring_case(content, query).contains(lines_of(content)[i]) by {
        lines_of(content).lemma_filter_contains(keep, i);
    }
}

} // verus!
