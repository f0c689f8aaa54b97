use vstd::prelude::*;

verus! {

/// The feedback colour attached to one letter position of one guess row.
#[derive(Clone, Copy, Debug, PartialEq, Eq, Structural)]
pub enum Colour {
    Green,
    Yellow,
    Grey,
}

/// The error raised when a feedback token is none of the three known symbols.
#[derive(Clone, Copy, Debug, PartialEq, Eq, Structural)]
pub struct UnrecognizedSymbolError {
    /// The offending token.
    pub token: char,
}

/// The colour a raw feedback token stands for, if it is recognized.
pub open spec fn colour_of_char(c: char) -> Option<Colour> {
    if c == '\u{1F7E9}' {
        Some(Colour::Green)
    } else if c == '\u{1F7E8}' {
        Some(Colour::Yellow)
    } else if c == '\u{2B1B}' {
        Some(Colour::Grey)
    } else {
        None
    }
}

/// Whether every token of `s` is a recognized feedback symbol.
pub open spec fn all_symbols(s: Seq<char>) -> bool {
    forall|i: int| 0 <= i < s.len() ==> (#[trigger] colour_of_char(s[i])) is Some
}

impl Colour {
    /// Classifies a single raw feedback token.
    pub fn from_char(c: char) -> (r: Result<Colour, UnrecognizedSymbolError>)
        ensures
            match r {
                Ok(col) => colour_of_char(c) == Some(col),
                Err(e) => colour_of_char(c) is None && e.token == c,
            },
    {
        if c == '\u{1F7E9}' {
            Ok(Colour::Green)
        } else if c == '\u{1F7E8}' {
            Ok(Colour::Yellow)
        } else if c == '\u{2B1B}' {
            Ok(Colour::Grey)
        } else {
            Err(UnrecognizedSymbolError { token: c })
        }
    }
}

/// One guess row: the feedback colour for each letter position.
#[derive(Debug)]
pub struct Guess {
    pub letters: Vec<Colour>,
}

impl Guess {
    /// Classifies a whole row of raw feedback tokens, stopping at the first
    /// token that is none of the three known symbols.
    pub fn from_emoji(emoji: &str) -> (r: Result<Guess, UnrecognizedSymbolError>)
        ensures
            match r {
                Ok(g) => {
                    &&& g.letters@.len() == emoji@.len()
                    &&& forall|i: int|
                        #![trigger g.letters@[i]]
                        #![trigger colour_of_char(emoji@[i])]
                        0 <= i < emoji@.len() ==> colour_of_char(emoji@[i]) == Some(g.letters@[i])
                },
                Err(e) => exists|i: int|
                    {
                        &&& 0 <= i < emoji@.len()
                        &&& (#[trigger] colour_of_char(emoji@[i])) is None
                        &&& e.token == emoji@[i]
                        &&& forall|j: int| 0 <= j < i ==> (#[trigger] colour_of_char(emoji@[j])) is Some
                    },
            },
            r is Ok <==> all_symbols(emoji@),
    {
        let n = emoji.unicode_len();
        let mut letters: Vec<Colour> = Vec::new();
        let mut i: usize = 0;
        while i < n
            invariant
                i <= n,
                n == emoji@.len(),
                letters@.len() == i,
                forall|j: int|
                    #![trigger letters@[j]]
                    #![trigger colour_of_char(emoji@[j])]
                    0 <= j < i ==> colour_of_char(emoji@[j]) == Some(letters@[j]),
            decreases n - i,
        {
            let c = emoji.get_char(i);
            match Colour::from_char(c) {
                Ok(col) => letters.push(col),
                Err(e) => {
                    proof {
                        assert({
                            &&& 0 <= i < emoji@.len()
                            &&& colour_of_char(emoji@[i as int]) is None
                            &&& e.token == emoji@[i as int]
                            &&& forall|j: int|
                                0 <= j < i ==> (#[trigger] colour_of_char(emoji@[j])) is Some
                        });
                    }
                    return Err(e);
                },
            }
            i += 1;
        }
        Ok(Guess { letters })
    }
}

} // verus!
