use vstd::prelude::*;

use crate::feedback::Guess;
use crate::letters::LetterSet;
use crate::letters::letters_of;

verus! {

/// A parsed transcript: the known solution word together with the guess
/// rows in the order they were originally played.
#[derive(Debug)]
pub struct Input {
    pub solution: String,
    pub guesses: Vec<Guess>,
}

impl Input {
    /// Every guess row has one feedback symbol per letter of the solution.
    pub open spec fn wf(&self) -> bool {
        forall|i: int|
            0 <= i < self.guesses@.len() ==> (#[trigger] self.guesses@[i]).letters@.len()
                == self.solution@.len()
    }

    /// The letters the solution holds at positions other than `idx`.
    pub open spec fn other_letters_spec(&self, idx: int) -> Set<char> {
        Set::new(
            |c: char|
                exists|j: int|
                    0 <= j < self.solution@.len() && j != idx && self.solution@[j] == c,
        )
    }

    /// The set of all letters of the solution.
    pub open spec fn all_letters_spec(&self) -> Set<char> {
        letters_of(self.solution@)
    }

    /// Gets the char at position.
    pub fn letter(&self, idx: usize) -> (c: char)
        requires
            idx < self.solution@.len(),
        ensures
            c == self.solution@[idx as int],
    {
        self.solution.as_str().get_char(idx)
    }

    /// Returns the set of chars that stand at some other position.
    pub fn other_letters(&self, idx: usize) -> (r: LetterSet)
        ensures
            r@ == self.other_letters_spec(idx as int),
    {
        let n = self.solution.as_str().unicode_len();
        let mut r = LetterSet::empty();
        let mut j: usize = 0;
        while j < n
            invariant
                j <= n,
                n == self.solution@.len(),
                forall|c: char|
                    r@.contains(c) <==> exists|jj: int|
                        0 <= jj < j && jj != idx && self.solution@[jj] == c,
            decreases n - j,
        {
            if j != idx {
                let c = self.solution.as_str().get_char(j);
                r.insert(c);
                proof {
                    assert forall|x: char| r@.contains(x) implies exists|jj: int|
                        0 <= jj < j + 1 && jj != idx && self.solution@[jj] == x by {
                        if x == c {
                            assert(0 <= j < j + 1 && j != idx && self.solution@[j as int] == x);
                        }
                    }
                }
            }
            proof {
                assert forall|x: char|
                    (exists|jj: int| 0 <= jj < j + 1 && jj != idx && self.solution@[jj] == x)
                        implies r@.contains(x) by {
                    let jj = choose|jj: int|
                        0 <= jj < j + 1 && jj != idx && self.solution@[jj] == x;
                    if jj < j {
                        assert(exists|k: int| 0 <= k < j && k != idx && self.solution@[k] == x);
                    }
                }
            }
            j += 1;
        }
        proof {
            assert(r@ =~= self.other_letters_spec(idx as int));
        }
        r
    }

    /// Returns all chars of the solution as a set.
    pub fn all_letters(&self) -> (r: LetterSet)
        ensures
            r@ == self.all_letters_spec(),
    {
        LetterSet::of_word(self.solution.as_str())
    }
}

} // verus!
