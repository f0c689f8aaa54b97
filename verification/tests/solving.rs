use reverdle::feedback::Colour;
use reverdle::feedback::Guess;
use reverdle::input::Input;
use reverdle::letters::LetterSet;
use reverdle::matching::PossibleLetters;
use reverdle::matching::find;
use reverdle::matching::matches_word;
use reverdle::search::Naive;
use reverdle::search::Recursive;

fn dict(words: &[&str]) -> Vec<String> {
    words.iter().map(|w| w.to_string()).collect()
}

fn row(colours: &[Colour]) -> Guess {
    Guess {
        letters: colours.to_vec(),
    }
}

const G: Colour = Colour::Green;
const Y: Colour = Colour::Yellow;
const X: Colour = Colour::Grey;

#[test]
fn word_satisfies_rules_iff_every_position_passes() {
    let crane = LetterSet::of_word("CRANE");
    let cs = vec![
        PossibleLetters::Exact('C'),
        PossibleLetters::Not(crane),
        PossibleLetters::Any,
        PossibleLetters::Possible(LetterSet::of_word("AE")),
        PossibleLetters::Any,
    ];
    // 'C' exact, 'H' outside CRANE, anything, 'E' in {A, E}, anything.
    assert!(matches_word(&cs, &"CHXEZ".to_string()));
    // Fails the exact rule at position 0.
    assert!(!matches_word(&cs, &"SHXEZ".to_string()));
    // Fails the forbidden-set rule at position 1.
    assert!(!matches_word(&cs, &"CRXEZ".to_string()));
    // Fails the one-of rule at position 3.
    assert!(!matches_word(&cs, &"CHXBZ".to_string()));
}

#[test]
fn find_keeps_exactly_the_matching_words_in_order() {
    let d = dict(&["CHAEA", "CRXEZ", "CHXEZ", "CWQAB"]);
    let cs = vec![
        PossibleLetters::Exact('C'),
        PossibleLetters::Not(LetterSet::of_word("R")),
        PossibleLetters::Any,
        PossibleLetters::Possible(LetterSet::of_word("AE")),
        PossibleLetters::Any,
    ];
    assert_eq!(find(&d, &cs), dict(&["CHAEA", "CHXEZ", "CWQAB"]));
}

#[test]
fn filtering_twice_returns_the_same_set() {
    let d = dict(&["CHAEA", "CRXEZ", "CHXEZ", "CWQAB"]);
    let cs = vec![
        PossibleLetters::Exact('C'),
        PossibleLetters::Not(LetterSet::of_word("R")),
        PossibleLetters::Any,
        PossibleLetters::Possible(LetterSet::of_word("AE")),
        PossibleLetters::Any,
    ];
    let once = find(&d, &cs);
    let twice = find(&once, &cs);
    assert_eq!(once, twice);
}

#[test]
fn all_unconstrained_keeps_the_dictionary() {
    let d = dict(&["CRANE", "CRATE", "CHESS"]);
    let cs = vec![
        PossibleLetters::Any,
        PossibleLetters::Any,
        PossibleLetters::Any,
        PossibleLetters::Any,
        PossibleLetters::Any,
    ];
    assert_eq!(find(&d, &cs), d);
}

#[test]
fn green_and_grey_row_eliminates_every_candidate() {
    // Target CRANE, feedback green at position 0 and grey elsewhere:
    // position 0 must be 'C', positions 1-4 forbid every letter of CRANE.
    let input = Input {
        solution: "CRANE".to_string(),
        guesses: vec![row(&[G, X, X, X, X])],
    };
    let d = dict(&["CRANE", "CRATE", "CHESS"]);
    // CRANE and CRATE carry forbidden letters after position 0; CHESS has
    // 'E' at position 2. Nothing survives.
    let found = Naive::reverdle(&input, &d);
    assert!(found.is_empty());
    // Words with no CRANE letters after the leading 'C' do survive.
    let d = dict(&["CRANE", "CHIPS", "COLTS"]);
    let found = Naive::reverdle(&input, &d);
    assert_eq!(found, dict(&["CHIPS", "COLTS"]));
}

#[test]
fn search_at_first_row_equals_plain_filtering() {
    // With two rows the backward search drops the final answer row and
    // starts at the first row with nothing excluded, so it must agree with
    // the naive single-row filter.
    let input = Input {
        solution: "CRANE".to_string(),
        guesses: vec![row(&[Y, X, X, X, X]), row(&[G, G, G, G, G])],
    };
    let d = dict(&["ROBOT", "CRANE", "RUSTY"]);
    let recursive = Recursive::reverdle(&input, &d);
    let naive = Naive::reverdle(&input, &d);
    assert_eq!(recursive, naive);
    assert_eq!(naive, dict(&["ROBOT", "RUSTY"]));
}

#[test]
fn later_exact_row_excludes_its_letters_below() {
    // Three rows: the last is the answer row the search drops; the middle
    // row matches CRANE exactly, so its candidate set is {CRANE} and every
    // branch into the first row carries CRANE's letters as bad letters.
    // The first row's yellow position then offers no letter at all, and
    // ROBOT, which the first row alone admits, is excluded.
    let input = Input {
        solution: "CRANE".to_string(),
        guesses: vec![
            row(&[Y, X, X, X, X]),
            row(&[G, G, G, G, G]),
            row(&[G, G, G, G, G]),
        ],
    };
    let d = dict(&["ROBOT", "CRANE"]);
    let recursive = Recursive::reverdle(&input, &d);
    assert!(recursive.is_empty());
    // The first row in isolation admits ROBOT.
    let naive = Naive::reverdle(&input, &d);
    assert_eq!(naive, dict(&["ROBOT"]));
}

#[test]
fn deeper_search_unions_branches() {
    // Solution ABC; the middle row is all grey, so its candidates are the
    // words sharing no letter with ABC: XYZ and QRS. Each in turn poisons
    // the first row, which is all green and admits only ABC; ABC shares no
    // letter with either branch word, so both branches return ABC.
    let input = Input {
        solution: "ABC".to_string(),
        guesses: vec![
            row(&[G, G, G]),
            row(&[X, X, X]),
            row(&[G, G, G]),
        ],
    };
    let d = dict(&["ABC", "XYZ", "QRS"]);
    let recursive = Recursive::reverdle(&input, &d);
    assert_eq!(recursive, dict(&["ABC"]));
}

#[test]
fn empty_candidate_level_contributes_nothing() {
    // The middle row is all green but the dictionary has no word equal to
    // the solution, so the starting level has no candidates and the search
    // returns the empty set.
    let input = Input {
        solution: "ABC".to_string(),
        guesses: vec![
            row(&[G, G, G]),
            row(&[G, G, G]),
            row(&[G, G, G]),
        ],
    };
    let d = dict(&["XYZ", "QRS"]);
    let recursive = Recursive::reverdle(&input, &d);
    assert!(recursive.is_empty());
}

#[test]
fn find_on_empty_dictionary_is_empty() {
    let d: Vec<String> = Vec::new();
    let cs = vec![PossibleLetters::Any];
    assert!(find(&d, &cs).is_empty());
}
