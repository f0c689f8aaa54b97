use vstd::prelude::*;

use crate::feedback::Colour;
use crate::input::Input;
use crate::letters::LetterSet;
use crate::letters::letters_of;
use crate::matching::PossibleLetters;
use crate::matching::char_matches;
use crate::matching::find;
use crate::matching::matches_pred;
use crate::matching::word_matches;

verus! {

/// Whether the letter `c` may stand at position `idx` of a candidate for
/// row `level`, given the accumulated bad letters.
///
/// A green symbol pins the position to the solution's own letter; a yellow
/// symbol admits the solution's letters from other positions, minus the bad
/// letters; a grey symbol forbids every letter of the solution together
/// with the bad letters.
pub open spec fn char_ok(input: Input, level: int, idx: int, bad: Set<char>, c: char) -> bool {
    match input.guesses@[level].letters@[idx] {
        Colour::Green => c == input.solution@[idx],
        Colour::Yellow => input.other_letters_spec(idx).difference(bad).contains(c),
        Colour::Grey => !input.all_letters_spec().union(bad).contains(c),
    }
}

/// Whether the word `w` is a candidate for row `level` under `bad`.
pub open spec fn word_ok(input: Input, level: int, bad: Set<char>, w: Seq<char>) -> bool {
    forall|idx: int|
        0 <= idx < input.guesses@[level].letters@.len() && idx < w.len() ==> #[trigger] char_ok(
            input,
            level,
            idx,
            bad,
            w[idx],
        )
}

/// The predicate row `level` imposes on a dictionary word under `bad`.
pub open spec fn row_pred(input: Input, level: int, bad: Set<char>) -> spec_fn(String) -> bool {
    |w: String| word_ok(input, level, bad, w@)
}

/// The row-`level` candidate set: the dictionary words consistent with the
/// row's constraints under `bad`, in dictionary order.
pub open spec fn row_filter(input: Input, dict: Seq<String>, level: int, bad: Set<char>) -> Seq<
    String,
> {
    dict.filter(row_pred(input, level, bad))
}

/// The set of word texts a sequence of words holds.
pub open spec fn word_views(s: Seq<String>) -> Set<Seq<char>> {
    Set::new(|v: Seq<char>| exists|i: int| 0 <= i < s.len() && s[i]@ == v)
}

/// Whether the words of `s` are pairwise distinct by their text.
pub open spec fn distinct_views(s: Seq<String>) -> bool {
    forall|i: int, j: int| #![trigger s[i], s[j]] 0 <= i < j < s.len() ==> s[i]@ != s[j]@
}

/// The solution set the backward search owes at row `level` under `bad`:
/// at the first row, the candidate set itself; above it, the union of the
/// branch results over the row's candidates, each branch excluding that
/// candidate's letters below.
pub open spec fn search(input: Input, dict: Seq<String>, level: nat, bad: Set<char>) -> Set<
    Seq<char>,
>
    decreases level, 0nat,
{
    let cands = row_filter(input, dict, level as int, bad);
    if level == 0 {
        word_views(cands)
    } else {
        search_branches(input, dict, (level - 1) as nat, bad, cands)
    }
}

/// The union of the search results one level down, one branch per word of
/// `cands`, each with that word's letters added to the bad set.
pub open spec fn search_branches(
    input: Input,
    dict: Seq<String>,
    sublevel: nat,
    bad: Set<char>,
    cands: Seq<String>,
) -> Set<Seq<char>>
    decreases sublevel, cands.len() + 1,
{
    if cands.len() == 0 {
        Set::<Seq<char>>::empty()
    } else {
        search(input, dict, sublevel, bad.union(letters_of(cands[0]@))).union(
            search_branches(input, dict, sublevel, bad, cands.drop_first()),
        )
    }
}

/// Builds one positional rule per letter of row `level`, deriving concrete
/// letters from the solution and excluding the accumulated bad letters.
fn build_constraints(input: &Input, level: usize, bad: &LetterSet) -> (cs: Vec<PossibleLetters>)
    requires
        input.wf(),
        level < input.guesses@.len(),
    ensures
        cs@.len() == input.guesses@[level as int].letters@.len(),
        forall|k: int, c: char|
            0 <= k < cs@.len() ==> (#[trigger] char_matches(cs@[k], c)) == char_ok(
                *input,
                level as int,
                k,
                bad@,
                c,
            ),
{
    let n = input.guesses[level].letters.len();
    let mut cs: Vec<PossibleLetters> = Vec::new();
    let mut idx: usize = 0;
    while idx < n
        invariant
            input.wf(),
            level < input.guesses@.len(),
            n == input.guesses@[level as int].letters@.len(),
            n == input.solution@.len(),
            idx <= n,
            cs@.len() == idx,
            forall|k: int, c: char|
                0 <= k < idx ==> (#[trigger] char_matches(cs@[k], c)) == char_ok(
                    *input,
                    level as int,
                    k,
                    bad@,
                    c,
                ),
        decreases n - idx,
    {
        let p = match input.guesses[level].letters[idx] {
            Colour::Green => PossibleLetters::Exact(input.letter(idx)),
            Colour::Yellow => PossibleLetters::Possible(input.other_letters(idx).difference(bad)),
            Colour::Grey => PossibleLetters::Not(input.all_letters().union(bad)),
        };
        cs.push(p);
        idx += 1;
    }
    cs
}

/// The rules built for a row test a word exactly as `word_ok` states.
proof fn lemma_constraints_agree(input: Input, level: int, bad: Set<char>, cs: Seq<PossibleLetters>)
    requires
        cs.len() == input.guesses@[level].letters@.len(),
        forall|k: int, c: char|
            0 <= k < cs.len() ==> (#[trigger] char_matches(cs[k], c)) == char_ok(
                input,
                level,
                k,
                bad,
                c,
            ),
    ensures
        forall|w: String| #[trigger] matches_pred(cs)(w) == row_pred(input, level, bad)(w),
{
    assert forall|w: String| #[trigger] matches_pred(cs)(w) == row_pred(input, level, bad)(w) by {
        if word_matches(cs, w@) {
            assert forall|idx: int|
                0 <= idx < input.guesses@[level].letters@.len() && idx < w@.len() implies #[trigger]
            char_ok(input, level, idx, bad, w@[idx]) by {
                assert(char_matches(cs[idx], w@[idx]));
            }
        }
        if word_ok(input, level, bad, w@) {
            assert forall|idx: int| 0 <= idx < cs.len() && idx < w@.len() implies #[trigger]
            char_matches(cs[idx], w@[idx]) by {
                assert(char_ok(input, level, idx, bad, w@[idx]));
            }
        }
    }
}

/// Two pointwise-equal predicates filter a sequence identically.
proof fn lemma_filter_congruence<A>(s: Seq<A>, p: spec_fn(A) -> bool, q: spec_fn(A) -> bool)
    requires
        forall|x: A| #![trigger p(x)] #![trigger q(x)] p(x) == q(x),
    ensures
        s.filter(p) == s.filter(q),
    decreases s.len(),
{
    reveal(Seq::filter);
    if s.len() != 0 {
        lemma_filter_congruence(s.drop_last(), p, q);
    }
}

/// Appending a word adds exactly its text to the set of texts.
proof fn lemma_word_views_push(s: Seq<String>, x: String)
    ensures
        word_views(s.push(x)) == word_views(s).insert(x@),
{
    assert forall|v: Seq<char>| word_views(s.push(x)).contains(v) implies word_views(s).insert(
        x@,
    ).contains(v) by {
        let i = choose|i: int| 0 <= i < s.push(x).len() && s.push(x)[i]@ == v;
        if i < s.len() {
            assert(s[i]@ == v);
        }
    }
    assert forall|v: Seq<char>| word_views(s).insert(x@).contains(v) implies word_views(
        s.push(x),
    ).contains(v) by {
        if v == x@ {
            assert(s.push(x)[s.len() as int]@ == v);
        } else {
            let i = choose|i: int| 0 <= i < s.len() && s[i]@ == v;
            assert(s.push(x)[i]@ == v);
        }
    }
    assert(word_views(s.push(x)) =~= word_views(s).insert(x@));
}

/// Whether some word of `v` has the text of `w`.
fn contains_word(v: &Vec<String>, w: &String) -> (b: bool)
    ensures
        b == word_views(v@).contains(w@),
{
    let mut i: usize = 0;
    while i < v.len()
        invariant
            i <= v@.len(),
            forall|j: int| 0 <= j < i ==> (#[trigger] v@[j])@ != w@,
        decreases v@.len() - i,
    {
        let vi = &v[i];
        if *vi == *w {
            proof {
                assert(v@[i as int]@ == w@);
            }
            return true;
        }
        i += 1;
    }
    false
}

/// Adds to `acc` every word of `sub` whose text it does not hold yet: a
/// deduplicating union.
fn merge_into(acc: &mut Vec<String>, sub: &Vec<String>)
    requires
        distinct_views(old(acc)@),
    ensures
        distinct_views(final(acc)@),
        word_views(final(acc)@) == word_views(old(acc)@).union(word_views(sub@)),
{
    proof {
        assert(sub@.take(0) =~= Seq::<String>::empty());
        assert(word_views(acc@) =~= word_views(old(acc)@).union(word_views(sub@.take(0))));
    }
    let mut k: usize = 0;
    while k < sub.len()
        invariant
            k <= sub@.len(),
            distinct_views(acc@),
            word_views(acc@) == word_views(old(acc)@).union(word_views(sub@.take(k as int))),
        decreases sub@.len() - k,
    {
        let w = &sub[k];
        let already = contains_word(acc, w);
        let ghost pre = acc@;
        if !already {
            acc.push(w.clone());
            proof {
                lemma_word_views_push(pre, sub@[k as int]);
                assert forall|a: int, b: int| #![trigger acc@[a], acc@[b]] 0 <= a < b < acc@.len()
                    implies acc@[a]@ != acc@[b]@ by {
                    if b == pre.len() {
                        if acc@[a]@ == w@ {
                            assert(word_views(pre).contains(w@));
                        }
                    }
                }
            }
        }
        proof {
            assert(sub@.take(k + 1 as int) =~= sub@.take(k as int).push(sub@[k as int]));
            lemma_word_views_push(sub@.take(k as int), sub@[k as int]);
            assert(word_views(acc@) =~= word_views(old(acc)@).union(
                word_views(sub@.take(k + 1 as int)),
            ));
        }
        k += 1;
    }
    proof {
        assert(sub@.take(sub@.len() as int) =~= sub@);
    }
}

/// Appending a candidate to the branch list adds exactly that branch's
/// result to the union.
proof fn lemma_search_branches_push(
    input: Input,
    dict: Seq<String>,
    sublevel: nat,
    bad: Set<char>,
    s: Seq<String>,
    x: String,
)
    ensures
        search_branches(input, dict, sublevel, bad, s.push(x)) == search_branches(
            input,
            dict,
            sublevel,
            bad,
            s,
        ).union(search(input, dict, sublevel, bad.union(letters_of(x@)))),
    decreases s.len(),
{
    let branch = search(input, dict, sublevel, bad.union(letters_of(x@)));
    if s.len() == 0 {
        assert(s.push(x)[0] == x);
        assert(s.push(x).drop_first() =~= s);
        assert(search_branches(input, dict, sublevel, bad, s.push(x)) =~= search_branches(
            input,
            dict,
            sublevel,
            bad,
            s,
        ).union(branch));
    } else {
        assert(s.push(x)[0] == s[0]);
        assert(s.push(x).drop_first() =~= s.drop_first().push(x));
        lemma_search_branches_push(input, dict, sublevel, bad, s.drop_first(), x);
        assert(search_branches(input, dict, sublevel, bad, s.push(x)) =~= search_branches(
            input,
            dict,
            sublevel,
            bad,
            s,
        ).union(branch));
    }
}

/// Only looks at the first guess.
pub struct Naive;

impl Naive {
    /// Filters the dictionary by the first row's constraints alone, with no
    /// letters excluded.
    pub fn reverdle(input: &Input, dict: &Vec<String>) -> (r: Vec<String>)
        requires
            input.wf(),
            input.guesses@.len() >= 1,
        ensures
            r@ == row_filter(*input, dict@, 0, Set::<char>::empty()),
    {
        let bad = LetterSet::empty();
        let cs = build_constraints(input, 0, &bad);
        let found = find(dict, &cs);
        proof {
            lemma_constraints_agree(*input, 0, Set::<char>::empty(), cs@);
            lemma_filter_congruence(
                dict@,
                matches_pred(cs@),
                row_pred(*input, 0, Set::<char>::empty()),
            );
        }
        found
    }
}

/// Starts from the second last guess and works upwards recursively.
pub struct Recursive;

impl Recursive {
    /// One level of the backward search: filters row `level` under the
    /// accumulated bad letters; at the first row that candidate set is the
    /// answer, above it the search recurses once per candidate word with
    /// that word's letters added to the bad set, unioning the branches.
    pub fn recurse(input: &Input, level: usize, bad_chars: &LetterSet, dict: &Vec<String>) -> (r:
        Vec<String>)
        requires
            input.wf(),
            level < input.guesses@.len(),
            crate::matching::distinct_views(dict@),
        ensures
            word_views(r@) == search(*input, dict@, level as nat, bad_chars@),
            crate::matching::distinct_views(r@),
        decreases level,
    {
        let cs = build_constraints(input, level, bad_chars);
        let found = find(dict, &cs);
        proof {
            lemma_constraints_agree(*input, level as int, bad_chars@, cs@);
            lemma_filter_congruence(
                dict@,
                matches_pred(cs@),
                row_pred(*input, level as int, bad_chars@),
            );
            crate::matching::lemma_filter_distinct(
                dict@,
                row_pred(*input, level as int, bad_chars@),
            );
        }
        if level == 0 {
            found
        } else {
            let mut acc: Vec<String> = Vec::new();
            proof {
                assert(found@.take(0) =~= Seq::<String>::empty());
                assert(word_views(acc@) =~= search_branches(
                    *input,
                    dict@,
                    (level - 1) as nat,
                    bad_chars@,
                    found@.take(0),
                ));
            }
            let mut i: usize = 0;
            while i < found.len()
                invariant
                    input.wf(),
                    0 < level < input.guesses@.len(),
                    crate::matching::distinct_views(dict@),
                    found@ == row_filter(*input, dict@, level as int, bad_chars@),
                    i <= found@.len(),
                    crate::matching::distinct_views(acc@),
                    word_views(acc@) == search_branches(
                        *input,
                        dict@,
                        (level - 1) as nat,
                        bad_chars@,
                        found@.take(i as int),
                    ),
                decreases found@.len() - i,
            {
                let word = &found[i];
                let word_set = LetterSet::of_word(word.as_str());
                let new_bad = bad_chars.union(&word_set);
                let sub = Self::recurse(input, level - 1, &new_bad, dict);
                merge_into(&mut acc, &sub);
                proof {
                    assert(found@.take(i + 1 as int) =~= found@.take(i as int).push(
                        found@[i as int],
                    ));
                    lemma_search_branches_push(
                        *input,
                        dict@,
                        (level - 1) as nat,
                        bad_chars@,
                        found@.take(i as int),
                        found@[i as int],
                    );
                }
                i += 1;
            }
            proof {
                assert(found@.take(found@.len() as int) =~= found@);
            }
            acc
        }
    }

    /// Runs the backward search over the whole transcript, starting at the
    /// second last guess row with no letters excluded.
    pub fn reverdle(input: &Input, dict: &Vec<String>) -> (r: Vec<String>)
        requires
            input.wf(),
            input.guesses@.len() >= 2,
            crate::matching::distinct_views(dict@),
        ensures
            word_views(r@) == search(
                *input,
                dict@,
                (input.guesses@.len() - 2) as nat,
                Set::<char>::empty(),
            ),
            crate::matching::distinct_views(r@),
    {
        let level = input.guesses.len() - 2;
        let bad = LetterSet::empty();
        Self::recurse(input, level, &bad, dict)
    }
}

/// At the first row the backward search has nothing to recurse over: it
/// returns exactly the dictionary filtered by that row's constraints under
/// an empty bad-letter set.
pub proof fn lemma_search_first_row(input: Input, dict: Seq<String>)
    ensures
        search(input, dict, 0, Set::<char>::empty()) == word_views(
            row_filter(input, dict, 0, Set::<char>::empty()),
        ),
{
}

/// A word allowed at every position under a larger bad-letter set is also
/// allowed under a smaller one: bad letters only add exclusions.
proof fn lemma_word_ok_monotone(
    input: Input,
    level: int,
    bad1: Set<char>,
    bad2: Set<char>,
    w: Seq<char>,
)
    requires
        bad1.subset_of(bad2),
        word_ok(input, level, bad2, w),
    ensures
        word_ok(input, level, bad1, w),
{
    assert forall|idx: int|
        0 <= idx < input.guesses@[level].letters@.len() && idx < w.len() implies #[trigger] char_ok(
        input,
        level,
        idx,
        bad1,
        w[idx],
    ) by {
        assert(char_ok(input, level, idx, bad2, w[idx]));
    }
}

/// Growing the bad-letter set only shrinks a row's candidate set.
pub proof fn lemma_row_filter_monotone(
    input: Input,
    dict: Seq<String>,
    level: int,
    bad1: Set<char>,
    bad2: Set<char>,
)
    requires
        bad1.subset_of(bad2),
    ensures
        word_views(row_filter(input, dict, level, bad2)).subset_of(
            word_views(row_filter(input, dict, level, bad1)),
        ),
{
    broadcast use vstd::seq_lib::group_filter_ensures;

    let f2 = row_filter(input, dict, level, bad2);
    let f1 = row_filter(input, dict, level, bad1);
    assert forall|v: Seq<char>| word_views(f2).contains(v) implies word_views(f1).contains(v) by {
        let k = choose|k: int| 0 <= k < f2.len() && f2[k]@ == v;
        let w = f2[k];
        assert(row_pred(input, level, bad2)(w));
        assert(f2.contains(w));
        dict.lemma_filter_contains_rev(row_pred(input, level, bad2), w);
        let j = choose|j: int| 0 <= j < dict.len() && dict[j] == w;
        lemma_word_ok_monotone(input, level, bad1, bad2, w@);
        assert(row_pred(input, level, bad1)(dict[j]));
        assert(f1.contains(dict[j]));
        let m = choose|m: int| 0 <= m < f1.len() && f1[m] == w;
        assert(f1[m]@ == v);
    }
}

/// The backward search never widens the earliest row's own candidate set:
/// every word it returns also survives filtering the first row alone under
/// the bad letters the search started with. The converse does not hold:
/// letter exclusion along the branches may remove first-row matches.
pub proof fn lemma_search_within_first_row(
    input: Input,
    dict: Seq<String>,
    level: nat,
    bad: Set<char>,
)
    ensures
        search(input, dict, level, bad).subset_of(word_views(row_filter(input, dict, 0, bad))),
    decreases level, 0nat,
{
    if level != 0 {
        lemma_search_branches_within(
            input,
            dict,
            (level - 1) as nat,
            bad,
            row_filter(input, dict, level as int, bad),
        );
    }
}

/// Each branch's result stays within the first row's candidate set under
/// the branch's starting bad letters.
proof fn lemma_search_branches_within(
    input: Input,
    dict: Seq<String>,
    sublevel: nat,
    bad: Set<char>,
    cands: Seq<String>,
)
    ensures
        search_branches(input, dict, sublevel, bad, cands).subset_of(
            word_views(row_filter(input, dict, 0, bad)),
        ),
    decreases sublevel, cands.len() + 1,
{
    if cands.len() != 0 {
        let bad2 = bad.union(letters_of(cands[0]@));
        lemma_search_within_first_row(input, dict, sublevel, bad2);
        lemma_row_filter_monotone(input, dict, 0, bad, bad2);
        lemma_search_branches_within(input, dict, sublevel, bad, cands.drop_first());
    }
}

/// The full backward search, started with no letters excluded, returns only
/// words that the first row's constraints alone admit.
pub proof fn lemma_search_within_naive(input: Input, dict: Seq<String>, level: nat)
    ensures
        search(input, dict, level, Set::<char>::empty()).subset_of(
            word_views(row_filter(input, dict, 0, Set::<char>::empty())),
        ),
{
    lemma_search_within_first_row(input, dict, level, Set::<char>::empty());
}

} // verus!
