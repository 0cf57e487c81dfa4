//! Fuzzy matching.  "Fuzzy" here means one thing only: the letters of the
//! search term occur in the text in the same order, with any gaps between
//! them, upper and lower case taken as the same.  It is no substring search
//! and no edit distance.

use crate::text::chars_of;
use vstd::prelude::*;

verus! {

/// The lowercase form of a text, as `str::to_lowercase` of the standard
/// library gives it.
pub uninterp spec fn lowercase(s: Seq<char>) -> Seq<char>;

/// `str::to_lowercase` of the standard library.  All that is claimed is that
/// the result depends on the characters of `s` alone; that result is called
/// [`lowercase`].
#[verifier::external_body]
fn to_lowercase(s: &str) -> (r: String)
    ensures
        r@ == lowercase(s@),
{
    s.to_lowercase()
}

/// `at` gives, for each character of `needle`, a place in `hay` where that
/// character stands, and the places go from left to right.
pub open spec fn is_embedding(needle: Seq<char>, hay: Seq<char>, at: Seq<int>) -> bool {
    &&& at.len() == needle.len()
    &&& forall|i: int|
        0 <= i < at.len() ==> 0 <= #[trigger] at[i] < hay.len() && hay[at[i]] == needle[i]
    &&& forall|i: int, j: int| 0 <= i < j < at.len() ==> at[i] < at[j]
}

/// The characters of `needle` occur in `hay` in the same order, not
/// necessarily next to each other.
pub open spec fn is_subsequence(needle: Seq<char>, hay: Seq<char>) -> bool {
    exists|at: Seq<int>| is_embedding(needle, hay, at)
}

/// A text matches a search term if the term is empty, or if the lowercase
/// term is a subsequence of the lowercase text.
pub open spec fn fuzzy_match(text: Seq<char>, term: Seq<char>) -> bool {
    term.len() == 0 || is_subsequence(lowercase(term), lowercase(text))
}

/// How many characters of `needle` one pass over `hay` finds, when it looks
/// for them one after the other and takes each where it first meets it.
pub open spec fn scan_matched(needle: Seq<char>, hay: Seq<char>) -> nat
    decreases hay.len(),
{
    if hay.len() == 0 {
        0
    } else {
        let k = scan_matched(needle, hay.drop_last());
        if k < needle.len() && hay.last() == needle[k as int] {
            k + 1
        } else {
            k
        }
    }
}

/// What the pass has found is a subsequence of what it has read.
proof fn lemma_scan_embeds(needle: Seq<char>, hay: Seq<char>) -> (at: Seq<int>)
    ensures
        scan_matched(needle, hay) <= needle.len(),
        is_embedding(needle.take(scan_matched(needle, hay) as int), hay, at),
    decreases hay.len(),
{
    if hay.len() == 0 {
        Seq::empty()
    } else {
        let shorter = hay.drop_last();
        let before = lemma_scan_embeds(needle, shorter);
        let k = scan_matched(needle, shorter);
        if k < needle.len() && hay.last() == needle[k as int] {
            let at = before.push(hay.len() - 1);
            assert forall|i: int| 0 <= i < at.len() implies 0 <= #[trigger] at[i] < hay.len()
                && hay[at[i]] == needle.take(k as int + 1)[i] by {
                if i < k {
                    assert(at[i] == before[i]);
                    assert(shorter[before[i]] == needle.take(k as int)[i]);
                }
            }
            assert forall|i: int, j: int| 0 <= i < j < at.len() implies at[i] < at[j] by {
                assert(at[i] == before[i]);
                if j < k {
                    assert(at[j] == before[j]);
                }
            }
            at
        } else {
            assert forall|i: int| 0 <= i < before.len() implies 0 <= #[trigger] before[i]
                < hay.len() && hay[before[i]] == needle.take(k as int)[i] by {
                assert(shorter[before[i]] == needle.take(k as int)[i]);
            }
            before
        }
    }
}

/// No beginning of `needle` longer than what the pass has found is a
/// subsequence of what it has read.
proof fn lemma_scan_finds_most(needle: Seq<char>, hay: Seq<char>, m: int, at: Seq<int>)
    requires
        0 <= m <= needle.len(),
        is_embedding(needle.take(m), hay, at),
    ensures
        m <= scan_matched(needle, hay),
    decreases hay.len(),
{
    if m == 0 {
    } else if hay.len() == 0 {
        assert(0 <= at[0] < hay.len());
    } else {
        let shorter = hay.drop_last();
        let k = scan_matched(needle, shorter);
        if at[m - 1] < hay.len() - 1 {
            assert forall|i: int| 0 <= i < at.len() implies 0 <= #[trigger] at[i] < shorter.len()
                && shorter[at[i]] == needle.take(m)[i] by {
                if i < m - 1 {
                    assert(at[i] < at[m - 1]);
                }
                assert(hay[at[i]] == needle.take(m)[i]);
            }
            lemma_scan_finds_most(needle, shorter, m, at);
        } else {
            let front = at.drop_last();
            assert(hay[at[m - 1]] == needle.take(m)[m - 1]);
            assert forall|i: int| 0 <= i < front.len() implies 0 <= #[trigger] front[i]
                < shorter.len() && shorter[front[i]] == needle.take(m - 1)[i] by {
                assert(front[i] == at[i]);
                assert(at[i] < at[m - 1]);
                assert(hay[at[i]] == needle.take(m)[i]);
            }
            assert forall|i: int, j: int| 0 <= i < j < front.len() implies front[i] < front[j] by {
                assert(front[i] == at[i] && front[j] == at[j]);
            }
            lemma_scan_finds_most(needle, shorter, m - 1, front);
        }
    }
}

/// `needle` is a subsequence of `hay` exactly if one pass over `hay` finds
/// all of it.
pub proof fn lemma_subsequence_by_scan(needle: Seq<char>, hay: Seq<char>)
    ensures
        is_subsequence(needle, hay) <==> scan_matched(needle, hay) == needle.len(),
{
    let found = lemma_scan_embeds(needle, hay);
    if scan_matched(needle, hay) == needle.len() {
        assert(needle.take(needle.len() as int) =~= needle);
        assert(is_embedding(needle, hay, found));
    }
    if is_subsequence(needle, hay) {
        let at = choose|at: Seq<int>| is_embedding(needle, hay, at);
        assert(needle.take(needle.len() as int) =~= needle);
        lemma_scan_finds_most(needle, hay, needle.len() as int, at);
    }
}

/// Tells whether the characters of `needle` occur in `hay` in the same order.
/// Upper and lower case are different characters here.
pub fn is_subsequence_of(needle: &str, hay: &str) -> (r: bool)
    ensures
        r == is_subsequence(needle@, hay@),
{
    let wanted = chars_of(needle);
    let mut k: usize = 0;
    for c in it: hay.chars()
        invariant
            it.seq() == hay@,
            wanted@ == needle@,
            k == scan_matched(needle@, hay@.take(it.index() as int)),
            k <= wanted.len(),
    {
        proof {
            assert(hay@.take(it.index() + 1).drop_last() =~= hay@.take(it.index() as int));
        }
        if k < wanted.len() && wanted[k] == c {
            k += 1;
        }
    }
    proof {
        assert(hay@.take(hay@.len() as int) =~= hay@);
        lemma_subsequence_by_scan(needle@, hay@);
    }
    k == wanted.len()
}

/// Tells whether `text` matches `search_term`: always for an empty term;
/// otherwise both are put in lower case, and the term has to be a
/// subsequence of the text.
pub fn does_match(text: &str, search_term: &str) -> (r: bool)
    ensures
        r == fuzzy_match(text@, search_term@),
{
    if search_term.is_empty() {
        return true;
    }
    let text = to_lowercase(text);
    let search_term = to_lowercase(search_term);
    is_subsequence_of(search_term.as_str(), text.as_str())
}

/// Every text matches the empty search term.
pub proof fn lemma_empty_term_matches(text: Seq<char>)
    ensures
        fuzzy_match(text, Seq::<char>::empty()),
{
}

/// Upper and lower case are the same to the matching: texts that are the
/// same in lower case match the same search terms, and search terms that are
/// the same in lower case are matched by the same texts.
pub proof fn lemma_match_ignores_case(
    text: Seq<char>,
    term: Seq<char>,
    other_text: Seq<char>,
    other_term: Seq<char>,
)
    requires
        lowercase(text) == lowercase(other_text),
        lowercase(term) == lowercase(other_term),
        term.len() > 0,
        other_term.len() > 0,
    ensures
        fuzzy_match(text, term) == fuzzy_match(other_text, other_term),
{
}

/// Every text matches itself.
pub proof fn lemma_text_matches_itself(s: Seq<char>)
    ensures
        fuzzy_match(s, s),
{
    let low = lowercase(s);
    let at = Seq::new(low.len(), |i: int| i);
    assert(is_embedding(low, low, at));
}

} // verus!
