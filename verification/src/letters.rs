use vstd::prelude::*;

verus! {

/// The set of distinct letters occurring anywhere in the word `w`.
pub open spec fn letters_of(w: Seq<char>) -> Set<char> {
    Set::new(|c: char| w.contains(c))
}

/// A finite set of letters, backed by a vector of characters.
///
/// Only membership matters: the view is the set of characters the vector
/// holds; duplicates and order in the backing vector are irrelevant.
pub struct LetterSet {
    chars: Vec<char>,
}

impl View for LetterSet {
    type V = Set<char>;

    closed spec fn view(&self) -> Set<char> {
        Set::new(|c: char| self.chars@.contains(c))
    }
}

impl LetterSet {
    /// The set with no letters.
    pub fn empty() -> (r: LetterSet)
        ensures
            r@ == Set::<char>::empty(),
    {
        let r = LetterSet { chars: Vec::new() };
        proof {
            assert(r@ =~= Set::<char>::empty());
        }
        r
    }

    /// Whether `c` is one of the letters of this set.
    pub fn contains(&self, c: char) -> (r: bool)
        ensures
            r == self@.contains(c),
    {
        let mut i: usize = 0;
        while i < self.chars.len()
            invariant
                i <= self.chars@.len(),
                forall|j: int| 0 <= j < i ==> self.chars@[j] != c,
            decreases self.chars@.len() - i,
        {
            if self.chars[i] == c {
                return true;
            }
            i += 1;
        }
        false
    }

    /// Adds the letter `c` to the set.
    pub fn insert(&mut self, c: char)
        ensures
            final(self)@ == old(self)@.insert(c),
    {
        self.chars.push(c);
        proof {
            broadcast use vstd::seq_lib::group_seq_properties;

            assert(self@ =~= old(self)@.insert(c));
        }
    }

    /// The set of letters in `self` or in `other`.
    pub fn union(&self, other: &LetterSet) -> (r: LetterSet)
        ensures
            r@ == self@.union(other@),
    {
        let mut out: Vec<char> = Vec::new();
        let mut i: usize = 0;
        while i < self.chars.len()
            invariant
                i <= self.chars@.len(),
                out@ == self.chars@.take(i as int),
            decreases self.chars@.len() - i,
        {
            out.push(self.chars[i]);
            proof {
                assert(out@ =~= self.chars@.take(i + 1 as int));
            }
            i += 1;
        }
        let mut k: usize = 0;
        while k < other.chars.len()
            invariant
                k <= other.chars@.len(),
                out@ == self.chars@ + other.chars@.take(k as int),
            decreases other.chars@.len() - k,
        {
            out.push(other.chars[k]);
            proof {
                assert(out@ =~= self.chars@ + other.chars@.take(k + 1 as int));
            }
            k += 1;
        }
        let r = LetterSet { chars: out };
        proof {
            assert(self.chars@.take(self.chars@.len() as int) =~= self.chars@);
            assert(other.chars@.take(other.chars@.len() as int) =~= other.chars@);
            assert forall|c: char| r@.contains(c) implies self@.union(other@).contains(c) by {
                let j = choose|j: int| 0 <= j < r.chars@.len() && r.chars@[j] == c;
                if j < self.chars@.len() {
                    assert(self.chars@[j] == c);
                } else {
                    assert(other.chars@[j - self.chars@.len()] == c);
                }
            }
            assert forall|c: char| self@.union(other@).contains(c) implies r@.contains(c) by {
                if self@.contains(c) {
                    let j = choose|j: int| 0 <= j < self.chars@.len() && self.chars@[j] == c;
                    assert(r.chars@[j] == c);
                } else {
                    let j = choose|j: int| 0 <= j < other.chars@.len() && other.chars@[j] == c;
                    assert(r.chars@[self.chars@.len() + j] == c);
                }
            }
            assert(r@ =~= self@.union(other@));
        }
        r
    }

    /// Collects every letter of the word `w` into a set.
    pub fn of_word(w: &str) -> (r: LetterSet)
        ensures
            r@ == letters_of(w@),
    {
        let n = w.unicode_len();
        let mut r = LetterSet::empty();
        let mut i: usize = 0;
        while i < n
            invariant
                i <= n,
                n == w@.len(),
                forall|c: char| r@.contains(c) <==> w@.take(i as int).contains(c),
            decreases n - i,
        {
            let c = w.get_char(i);
            r.insert(c);
            proof {
                broadcast use vstd::seq_lib::group_seq_properties;

                assert(w@.take(i + 1 as int).drop_last() =~= w@.take(i as int));
                assert forall|x: char| r@.contains(x) implies w@.take(i + 1 as int).contains(
                    x,
                ) by {
                    if x == c {
                        assert(w@.take(i + 1 as int)[i as int] == x);
                    } else {
                        let j = choose|j: int|
                            0 <= j < w@.take(i as int).len() && w@.take(i as int)[j] == x;
                        assert(w@.take(i + 1 as int)[j] == x);
                    }
                }
                assert forall|x: char| w@.take(i + 1 as int).contains(x) implies r@.contains(
                    x,
                ) by {
                    let t1 = w@.take(i + 1 as int);
                    let j = choose|j: int| 0 <= j < t1.len() && t1[j] == x;
                    if j < i as int {
                        assert(w@.take(i as int)[j] == x);
                    }
                }
            }
            i += 1;
        }
        proof {
            assert(w@.take(n as int) =~= w@);
            assert(r@ =~= letters_of(w@));
        }
        r
    }

    /// The set of letters in `self` that are not in `other`.
    pub fn difference(&self, other: &LetterSet) -> (r: LetterSet)
        ensures
            r@ == self@.difference(other@),
    {
        let mut out: Vec<char> = Vec::new();
        let mut i: usize = 0;
        while i < self.chars.len()
            invariant
                i <= self.chars@.len(),
                forall|j: int| 0 <= j < out@.len() ==> self.chars@.contains(#[trigger] out@[j])
                    && !other@.contains(out@[j]),
                forall|j: int| 0 <= j < i && !other@.contains(#[trigger] self.chars@[j])
                    ==> out@.contains(self.chars@[j]),
            decreases self.chars@.len() - i,
        {
            let c = self.chars[i];
            if !other.contains(c) {
                out.push(c);
            }
            proof {
                broadcast use vstd::seq_lib::group_seq_properties;
            }
            i += 1;
        }
        let r = LetterSet { chars: out };
        proof {
            assert forall|c: char| r@.contains(c) implies self@.difference(other@).contains(c) by {
                let j = choose|j: int| 0 <= j < r.chars@.len() && r.chars@[j] == c;
                assert(self.chars@.contains(r.chars@[j]));
            }
            assert forall|c: char| self@.difference(other@).contains(c) implies r@.contains(c) by {
                let j = choose|j: int| 0 <= j < self.chars@.len() && self.chars@[j] == c;
                assert(out@.contains(self.chars@[j]));
            }
            assert(r@ =~= self@.difference(other@));
        }
        r
    }
}

} // verus!
