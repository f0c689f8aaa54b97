use vstd::prelude::*;

use crate::letters::LetterSet;

verus! {

/// The rule restricting which letter may occupy one word position.
pub enum PossibleLetters {
    /// Any letter is permitted here.
    Any,
    /// This position must hold exactly this letter.
    Exact(char),
    /// This position must hold one of these letters.
    Possible(LetterSet),
    /// This position must hold none of these letters.
    Not(LetterSet),
}

/// Whether the letter `c` satisfies the positional rule `p`.
pub open spec fn char_matches(p: PossibleLetters, c: char) -> bool {
    match p {
        PossibleLetters::Any => true,
        PossibleLetters::Exact(o) => c == o,
        PossibleLetters::Possible(s) => s@.contains(c),
        PossibleLetters::Not(s) => !s@.contains(c),
    }
}

/// Whether the word `w` satisfies every positional rule of `cs`.
pub open spec fn word_matches(cs: Seq<PossibleLetters>, w: Seq<char>) -> bool {
    forall|i: int| 0 <= i < cs.len() && i < w.len() ==> #[trigger] char_matches(cs[i], w[i])
}

/// The predicate a constraint sequence imposes on a dictionary word.
pub open spec fn matches_pred(cs: Seq<PossibleLetters>) -> spec_fn(String) -> bool {
    |w: String| word_matches(cs, w@)
}

/// Whether `word` satisfies every positional rule of `letters`.
pub fn matches_word(letters: &Vec<PossibleLetters>, word: &String) -> (b: bool)
    ensures
        b == word_matches(letters@, word@),
{
    let wlen = word.as_str().unicode_len();
    let mut i: usize = 0;
    while i < letters.len() && i < wlen
        invariant
            i <= letters@.len(),
            wlen == word@.len(),
            forall|j: int| 0 <= j < i ==> #[trigger] char_matches(letters@[j], word@[j]),
        decreases letters@.len() - i,
    {
        let c = word.as_str().get_char(i);
        let ok = match &letters[i] {
            PossibleLetters::Any => true,
            PossibleLetters::Exact(o) => c == *o,
            PossibleLetters::Possible(s) => s.contains(c),
            PossibleLetters::Not(s) => !s.contains(c),
        };
        if !ok {
            proof {
                assert(!char_matches(letters@[i as int], word@[i as int]));
            }
            return false;
        }
        i += 1;
    }
    true
}

/// Scans the dictionary in order and returns every word consistent with the
/// positional rules.
pub fn find(dict: &Vec<String>, letters: &Vec<PossibleLetters>) -> (found: Vec<String>)
    ensures
        found@ == dict@.filter(matches_pred(letters@)),
{
    let mut found: Vec<String> = Vec::new();
    let mut i: usize = 0;
    while i < dict.len()
        invariant
            i <= dict@.len(),
            found@ == dict@.take(i as int).filter(matches_pred(letters@)),
        decreases dict@.len() - i,
    {
        let word = &dict[i];
        let m = matches_word(letters, word);
        proof {
            reveal(Seq::filter);
            assert(dict@.take(i + 1 as int).drop_last() =~= dict@.take(i as int));
            assert(dict@.take(i + 1 as int).last() == dict@[i as int]);
        }
        if m {
            found.push(word.clone());
        }
        i += 1;
    }
    proof {
        assert(dict@.take(dict@.len() as int) =~= dict@);
    }
    found
}

/// Whether the words of `s` are pairwise distinct by their text.
pub open spec fn distinct_views(s: Seq<String>) -> bool {
    forall|i: int, j: int| #![trigger s[i], s[j]] 0 <= i < j < s.len() ==> s[i]@ != s[j]@
}

/// Filtering keeps pairwise-distinct words pairwise distinct.
pub proof fn lemma_filter_distinct(s: Seq<String>, pred: spec_fn(String) -> bool)
    requires
        distinct_views(s),
    ensures
        distinct_views(s.filter(pred)),
    decreases s.len(),
{
    reveal(Seq::filter);
    if s.len() != 0 {
        let rest = s.drop_last();
        assert(distinct_views(rest)) by {
            assert forall|i: int, j: int| #![trigger rest[i], rest[j]] 0 <= i < j < rest.len()
                implies rest[i]@ != rest[j]@ by {
                assert(s[i]@ != s[j]@);
            }
        }
        lemma_filter_distinct(rest, pred);
        if pred(s.last()) {
            let rf = rest.filter(pred);
            let sf = s.filter(pred);
            assert forall|i: int, j: int| #![trigger sf[i], sf[j]] 0 <= i < j < sf.len()
                implies sf[i]@ != sf[j]@ by {
                if j < rf.len() {
                    assert(rf[i]@ != rf[j]@);
                } else {
                    assert(rf.contains(rf[i]));
                    rest.lemma_filter_contains_rev(pred, rf[i]);
                    let k = choose|k: int| 0 <= k < rest.len() && rest[k] == rf[i];
                    assert(s[k]@ != s[s.len() - 1]@);
                }
            }
        }
    }
}

/// If every element of `s` satisfies `pred`, filtering by `pred` keeps `s`
/// exactly as it is.
proof fn lemma_filter_all_true<A>(s: Seq<A>, pred: spec_fn(A) -> bool)
    requires
        forall|i: int| 0 <= i < s.len() ==> pred(#[trigger] s[i]),
    ensures
        s.filter(pred) == s,
    decreases s.len(),
{
    reveal(Seq::filter);
    if s.len() != 0 {
        lemma_filter_all_true(s.drop_last(), pred);
        assert(s.drop_last().push(s.last()) =~= s);
    }
}

/// A dictionary word survives the filter exactly when it independently
/// satisfies every positional rule.
pub proof fn lemma_filter_characterizes(dict: Seq<String>, cs: Seq<PossibleLetters>, w: String)
    requires
        dict.contains(w),
    ensures
        dict.filter(matches_pred(cs)).contains(w) <==> word_matches(cs, w@),
{
    broadcast use vstd::seq_lib::group_filter_ensures;

    let pred = matches_pred(cs);
    if dict.filter(pred).contains(w) {
        let k = choose|k: int| 0 <= k < dict.filter(pred).len() && dict.filter(pred)[k] == w;
        assert(pred(dict.filter(pred)[k]));
    }
    if word_matches(cs, w@) {
        let j = choose|j: int| 0 <= j < dict.len() && dict[j] == w;
        assert(pred(dict[j]));
        assert(dict.filter(pred).contains(dict[j]));
    }
}

/// Filtering an already-filtered dictionary with the same constraints
/// returns it unchanged: the filter is idempotent.
pub proof fn lemma_filter_idempotent(dict: Seq<String>, cs: Seq<PossibleLetters>)
    ensures
        dict.filter(matches_pred(cs)).filter(matches_pred(cs)) == dict.filter(matches_pred(cs)),
{
    broadcast use vstd::seq_lib::group_filter_ensures;

    let pred = matches_pred(cs);
    let once = dict.filter(pred);
    assert forall|i: int| 0 <= i < once.len() implies pred(#[trigger] once[i]) by {
        assert(pred(dict.filter(pred)[i]));
    }
    lemma_filter_all_true(once, pred);
}

/// Filtering with a fully unconstrained rule sequence returns the
/// dictionary unchanged.
pub proof fn lemma_filter_unconstrained(dict: Seq<String>, cs: Seq<PossibleLetters>)
    requires
        forall|i: int| 0 <= i < cs.len() ==> #[trigger] cs[i] is Any,
    ensures
        dict.filter(matches_pred(cs)) == dict,
{
    let pred = matches_pred(cs);
    assert forall|k: int| 0 <= k < dict.len() implies pred(#[trigger] dict[k]) by {
        assert forall|i: int| 0 <= i < cs.len() && i < dict[k]@.len() implies #[trigger]
            char_matches(cs[i], dict[k]@[i]) by {
            assert(cs[i] is Any);
        }
    }
    lemma_filter_all_true(dict, pred);
}

} // verus!
