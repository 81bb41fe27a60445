//! Substring containment over characters, and lower-casing.
use vstd::prelude::*;

verus! {

/// `pat` occurs in `text` as a contiguous run of characters.
pub open spec fn has_infix(text: Seq<char>, pat: Seq<char>) -> bool {
    exists|i: int|
        0 <= i <= text.len() - pat.len() && #[trigger] text.subrange(i, i + pat.len()) == pat
}

/// The empty pattern occurs in every text.
pub proof fn lemma_empty_infix(text: Seq<char>)
    ensures
        has_infix(text, Seq::empty()),
{
    let empty = Seq::<char>::empty();
    assert(text.subrange(0, 0 + empty.len() as int) =~= empty);
}

/// The characters of `s`, in order.
pub(crate) fn chars_of(s: &str) -> (r: Vec<char>)
    ensures
        r@ == s@,
{
    let mut v: Vec<char> = Vec::new();
    for c in it: s.chars()
        invariant
            v@ == it.seq().take(it.index() as int),
    {
        v.push(c);
    }
    v
}

/// Whether `pat` stands in `text` starting at position `at`.
fn occurs_at(text: &Vec<char>, pat: &Vec<char>, at: usize) -> (r: bool)
    requires
        at + pat@.len() <= text@.len(),
    ensures
        r == (text@.subrange(at as int, at + pat@.len()) == pat@),
{
    let n: usize = text.len();
    let mut j: usize = 0;
    while j < pat.len()
        invariant
            n == text@.len(),
            j <= pat@.len(),
            at + pat@.len() <= text@.len(),
            forall|k: int| 0 <= k < j ==> text@[at + k] == pat@[k],
        decreases pat@.len() - j,
    {
        if text[at + j] != pat[j] {
            assert(text@.subrange(at as int, at + pat@.len())[j as int] != pat@[j as int]);
            return false;
        }
        j += 1;
    }
    assert(text@.subrange(at as int, at + pat@.len()) =~= pat@);
    true
}

/// Naive left-to-right search for `pat` in `text`.
pub(crate) fn has_infix_chars(text: &Vec<char>, pat: &Vec<char>) -> (r: bool)
    ensures
        r == has_infix(text@, pat@),
{
    if pat.len() > text.len() {
        return false;
    }
    let last: usize = text.len() - pat.len();
    let mut i: usize = 0;
    loop
        invariant
            i <= last,
            last == text@.len() - pat@.len(),
            forall|k: int| 0 <= k < i ==> #[trigger] text@.subrange(k, k + pat@.len()) != pat@,
        decreases last - i,
    {
        if occurs_at(text, pat, i) {
            return true;
        }
        if i == last {
            return false;
        }
        i += 1;
    }
}

/// Whether `query` occurs in `line`, character for character.
pub fn contains_query(line: &str, query: &str) -> (r: bool)
    ensures
        r == has_infix(line@, query@),
{
    has_infix_chars(&chars_of(line), &chars_of(query))
}

/// What `str::to_lowercase` makes of a sequence of characters.
pub uninterp spec fn lower_of(s: Seq<char>) -> Seq<char>;

/// Relies on `str::to_lowercase`: a new string whose characters depend on
/// those of `s` alone; an empty string stays empty.
#[verifier::external_body]
pub(crate) fn lowercase(s: &str) -> (r: String)
    ensures
        r@ == lower_of(s@),
        s@.len() == 0 ==> r@.len() == 0,
{
    s.to_lowercase()
}

} // verus!
